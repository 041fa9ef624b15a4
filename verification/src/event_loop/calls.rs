//! Who runs which callback, over whole runs of the loop.

use crate::effect::{lemma_viewed_concat, viewed, Effect, EffectView};
use crate::event_loop::laws::lemma_served_requests;
use crate::event_loop::lemmas::{lemma_filter_origin, lemma_received, lemma_served};
use crate::event_loop::requests::lemma_list_released_plain;
use crate::event_loop::runs::{run_keeps_loop_sound, Step};
use crate::event_loop::state::{destroyed, plain, LoopState};
use crate::event_loop::{Event, HandleView, RequestView};
use crate::resource::{CallbackId, ResourceId, ResourceKind, ResourceView, SharedId};
use crate::signals::{
    listens, persistent, signaled, signaled_all, triggered, unlistened,
    without, Handlers, Lifetime, Signal,
};
use crate::tcp_stream::{write_after, write_start, StreamView};
use crate::timers::{expired_before, pending_from};
use vstd::prelude::*;

verus! {

/// The callback that an effect runs.
pub open spec fn called(effect: EffectView) -> Option<CallbackId> {
    match effect {
        EffectView::ReadCallback(callback, _, _) => Some(callback),
        EffectView::Drop(_) => None,
        EffectView::Plain(effect) => match effect {
            Effect::TimerCallback(callback) => Some(callback),
            Effect::CheckCallback(callback, _) => Some(callback),
            Effect::TaskCallback(callback) => Some(callback),
            Effect::SignalCallback(callback, _, _) => Some(callback),
            Effect::ConnectionCallback(callback, _) => Some(callback),
            Effect::AcceptCallback(callback, _, _) => Some(callback),
            Effect::ReadCallback(callback, _, _) => Some(callback),
            Effect::WriteCallback(callback, _, _) => Some(callback),
            Effect::CloseCallback(callback) => Some(callback),
            Effect::FsEventCallback(callback, _) => Some(callback),
            Effect::FsWatcherCallback(callback, _) => Some(callback),
            Effect::TtyCallback(callback, _) => Some(callback),
            _ => None,
        },
    }
}

/// Whether a callback is run by one of the effects.
pub open spec fn calls(effects: Seq<EffectView>, callback: CallbackId) -> bool {
    exists|i: int| 0 <= i < effects.len() && called(#[trigger] effects[i]) == Some(callback)
}

/// How often a callback is run.
pub open spec fn call_count(effects: Seq<EffectView>, callback: CallbackId) -> nat
    decreases effects.len(),
{
    if effects.len() == 0 {
        0
    } else if called(effects.last()) == Some(callback) {
        call_count(effects.drop_last(), callback) + 1
    } else {
        call_count(effects.drop_last(), callback)
    }
}

/// Whether a stream has the callback.
pub open spec fn stream_has(stream: StreamView, callback: CallbackId) -> bool {
    ||| stream.on_connection == Some(callback)
    ||| stream.on_read == Some(callback)
    ||| stream.on_close == Some(callback)
    ||| exists|i: int|
        0 <= i < stream.write_queue.len() && (#[trigger] stream.write_queue[i]).1 == callback
}

impl ResourceView {
    /// Whether the resource has the callback.
    pub open spec fn has(self, callback: CallbackId) -> bool {
        match self {
            ResourceView::Timer(timer) => timer.callback == callback,
            ResourceView::TcpStream(stream) => stream_has(stream, callback),
            ResourceView::TcpListener(listener) => listener.on_connection == callback
                || listener.on_close == Some(callback),
            ResourceView::Task(task) => task.on_complete == Some(callback),
            ResourceView::Check(check) => check.callback == callback,
            ResourceView::FsEvent(fs_event) => fs_event.callback == callback,
            ResourceView::FsWatcher(watcher) => watcher.callback == callback,
            ResourceView::TtyReader(reader) => reader.on_read == callback,
        }
    }
}

impl RequestView {
    /// Whether the request brings the callback, other than in a resource that it
    /// adds.
    pub open spec fn brings(self, callback: CallbackId) -> bool {
        match self {
            RequestView::TcpWrite(_, _, other) => other == callback,
            RequestView::TcpRead(_, other) => other == callback,
            RequestView::TcpShutdown(_, other) => other == callback,
            RequestView::TcpClose(_, other) => other == callback,
            RequestView::TcpListenStop(_, other) => other == callback,
            RequestView::SignalStart(_, signal) => signal.callback == callback,
            _ => false,
        }
    }

    /// Whether the request adds a resource that has the callback.
    pub open spec fn adds(self, callback: CallbackId) -> bool {
        self.resource() is Some && self.resource()->0.has(callback)
    }
}

impl HandleView {
    /// Whether no request from number `start` on has anything to do with the
    /// callback.
    pub open spec fn spares(self, start: int, callback: CallbackId) -> bool {
        forall|i: int|
            start <= i < self.requests.len() ==> !(#[trigger] self.requests[i]).brings(callback)
                && !self.requests[i].adds(callback)
    }
}

/// Whether no listener has the callback.
pub open spec fn unheard(handlers: Handlers, callback: CallbackId) -> bool {
    forall|number: i32, i: int|
        handlers.contains_key(number) && 0 <= i < handlers[number].len() ==> (
        #[trigger] handlers[number][i]).callback != callback
}

impl LoopState {
    /// Whether only resources such as `who` have the callback, or wait to be
    /// added with it.
    pub open spec fn kept_by(
        self,
        callback: CallbackId,
        who: spec_fn(ResourceView) -> bool,
    ) -> bool {
        &&& forall|id: ResourceId| #[trigger]
            self.resources.contains_key(id) && self.resources[id].has(callback) ==> who(
                self.resources[id],
            )
        &&& forall|i: int|
            0 <= i < self.handle.requests.len() ==> !(#[trigger] self.handle.requests[i]).brings(
                callback,
            )
        &&& forall|i: int|
            0 <= i < self.handle.requests.len() && (#[trigger] self.handle.requests[i]).adds(
                callback,
            ) ==> who(self.handle.requests[i].resource()->0)
        &&& forall|i: int|
            0 <= i < self.accepted.len() ==> !stream_has(#[trigger] self.accepted[i], callback)
        &&& unheard(self.signals, callback)
    }

    /// Whether nothing has the callback, and nothing waits to be added with it.
    pub open spec fn forgot(self, callback: CallbackId) -> bool {
        self.kept_by(callback, |resource: ResourceView| false)
    }

    /// Whether a step brings the callback to the loop: a request that has to do
    /// with it is made.
    pub open spec fn hears(self, step: Step, callback: CallbackId) -> bool {
        step matches Step::Use(handle) && !handle.spares(
            self.handle.requests.len() as int,
            callback,
        )
    }

    /// Whether some step of a run brings the callback to the loop.
    pub open spec fn hears_in(self, steps: Seq<Step>, callback: CallbackId) -> bool
        decreases steps.len(),
    {
        steps.len() > 0 && (self.hears_in(steps.drop_last(), callback) || self.ran(
            steps.drop_last(),
        ).0.hears(steps.last(), callback))
    }

    /// Whether a step can run the callback of a resource that is neither a
    /// stream nor a listener.
    pub open spec fn can_call(self, step: Step, callback: CallbackId) -> bool {
        match step {
            Step::Timers => exists|id: ResourceId| #[trigger]
                self.holds(id, ResourceKind::Timer) && self.resources[id].has(callback),
            Step::Checks => exists|id: ResourceId| #[trigger]
                self.holds(id, ResourceKind::Check) && self.resources[id].has(callback),
            Step::Event(Event::ThreadPool(id)) => self.holds(id, ResourceKind::Task)
                && self.resources[id].has(callback),
            Step::Event(Event::Watch(id)) => self.holds(id, ResourceKind::FsEvent)
                && self.resources[id].has(callback),
            Step::Event(Event::FsWatch(id)) => self.holds(id, ResourceKind::FsWatcher)
                && self.resources[id].has(callback),
            Step::Event(Event::TtyRead(id)) => self.holds(id, ResourceKind::TtyReader)
                && self.resources[id].has(callback),
            _ => false,
        }
    }
}

/// Neither streams nor listeners are such as `who`.
pub open spec fn no_socket(who: spec_fn(ResourceView) -> bool) -> bool {
    forall|resource: ResourceView| #[trigger]
        who(resource) ==> !(resource is TcpStream) && !(resource is TcpListener)
}

/// What two lists of effects run, they run one after the other.
pub(crate) proof fn lemma_calls_concat(
    first: Seq<EffectView>,
    second: Seq<EffectView>,
    callback: CallbackId,
)
    ensures
        calls(first + second, callback) <==> calls(first, callback) || calls(second, callback),
        call_count(first + second, callback) == call_count(first, callback) + call_count(
            second,
            callback,
        ),
    decreases second.len(),
{
    let both = first + second;
    if calls(first, callback) {
        let i = choose|i: int|
            0 <= i < first.len() && called(#[trigger] first[i]) == Some(callback);
        assert(both[i] == first[i]);
    }
    if calls(second, callback) {
        let i = choose|i: int|
            0 <= i < second.len() && called(#[trigger] second[i]) == Some(callback);
        assert(both[first.len() + i] == second[i]);
    }
    if calls(both, callback) {
        let i = choose|i: int| 0 <= i < both.len() && called(#[trigger] both[i]) == Some(callback);
        if i < first.len() {
            assert(first[i] == both[i]);
        } else {
            assert(second[i - first.len()] == both[i]);
        }
    }
    if second.len() == 0 {
        assert(both =~= first);
    } else {
        assert(both.drop_last() =~= first + second.drop_last());
        lemma_calls_concat(first, second.drop_last(), callback);
    }
}

/// A callback that is not run is run no times.
pub(crate) proof fn lemma_no_calls(effects: Seq<EffectView>, callback: CallbackId)
    ensures
        calls(effects, callback) <==> call_count(effects, callback) > 0,
    decreases effects.len(),
{
    if effects.len() > 0 {
        let less = effects.drop_last();
        lemma_no_calls(less, callback);
        lemma_calls_concat(less, seq![effects.last()], callback);
        assert(less + seq![effects.last()] =~= effects);
        assert(seq![effects.last()][0] == effects.last());
        assert(calls(seq![effects.last()], callback) <==> called(effects.last()) == Some(
            callback,
        )) by {
            if called(effects.last()) == Some(callback) {
                assert(called(seq![effects.last()][0]) == Some(callback));
            }
        }
    }
}

/// A signal runs the callbacks of its listeners.
proof fn lemma_triggered(list: Seq<Signal>, number: i32, callback: CallbackId)
    requires
        forall|i: int| 0 <= i < list.len() ==> (#[trigger] list[i]).callback != callback,
    ensures
        !calls(viewed(triggered(list, number)), callback),
    decreases list.len(),
{
    if list.len() > 0 {
        let less = list.drop_last();
        assert forall|i: int| 0 <= i < less.len() implies (#[trigger] less[i]).callback
            != callback by {
            assert(list[i].callback != callback);
        }
        lemma_triggered(less, number, callback);
        assert(list[list.len() - 1].callback != callback);
        let earlier = viewed(triggered(less, number));
        let all = viewed(triggered(list, number));
        assert forall|i: int| 0 <= i < all.len() implies called(#[trigger] all[i]) != Some(
            callback,
        ) by {
            if i < earlier.len() {
                assert(all[i] == earlier[i]);
            }
        }
    }
}

/// A signal leaves no callback with a listener that none had.
proof fn lemma_signaled_unheard(handlers: Handlers, number: i32, callback: CallbackId)
    requires
        unheard(handlers, callback),
    ensures
        unheard(signaled(handlers, number).0, callback),
        !calls(viewed(signaled(handlers, number).1), callback),
{
    if handlers.contains_key(number) && handlers[number].len() > 0 {
        let list = handlers[number];
        let keep = |signal: Signal| signal.lifetime == Lifetime::Persistent;
        assert forall|i: int| 0 <= i < list.len() implies (#[trigger] list[i]).callback
            != callback by {
            assert(handlers[number][i].callback != callback);
        }
        lemma_triggered(list, number, callback);
        assert forall|i: int| 0 <= i < persistent(list).len() implies (
        #[trigger] persistent(list)[i]).callback != callback by {
            lemma_filter_origin(list, keep, i);
        }
    }
}

/// Pending signals leave no callback with a listener that none had.
proof fn lemma_signals_unheard(handlers: Handlers, numbers: Seq<i32>, callback: CallbackId)
    requires
        unheard(handlers, callback),
    ensures
        unheard(signaled_all(handlers, numbers).0, callback),
        !calls(viewed(signaled_all(handlers, numbers).1), callback),
    decreases numbers.len(),
{
    if numbers.len() > 0 {
        lemma_signals_unheard(handlers, numbers.drop_last(), callback);
        let (before, effects) = signaled_all(handlers, numbers.drop_last());
        lemma_signaled_unheard(before, numbers.last(), callback);
        let more = signaled(before, numbers.last()).1;
        lemma_viewed_concat(effects, more);
        lemma_calls_concat(viewed(effects), viewed(more), callback);
    }
}

/// Removing a listener runs nothing and leaves no callback with another.
proof fn lemma_unlistened_unheard(handlers: Handlers, id: u64, callback: CallbackId)
    requires
        unheard(handlers, callback),
    ensures
        unheard(unlistened(handlers, id).0, callback),
        !calls(plain(unlistened(handlers, id).1), callback),
{
    if exists|number: i32| listens(handlers, number, id) {
        let number = choose|number: i32| listens(handlers, number, id);
        let list = handlers[number];
        lemma_list_released_plain(list, id);
        let keep = |signal: Signal| signal.id != id;
        assert forall|i: int| 0 <= i < without(list, id).len() implies (
        #[trigger] without(list, id)[i]).callback != callback by {
            lemma_filter_origin(list, keep, i);
            let j = choose|j: int| 0 <= j < list.len() && list[j] == without(list, id)[i];
            assert(handlers[number][j].callback != callback);
        }
    }
}

/// A resource that joins keeps the callback with those that may have it.
proof fn lemma_joined_kept(
    state: LoopState,
    after: LoopState,
    id: ResourceId,
    resource: ResourceView,
    callback: CallbackId,
    who: spec_fn(ResourceView) -> bool,
)
    requires
        state.kept_by(callback, who),
        resource.has(callback) ==> who(resource),
        after.resources == state.resources.insert(id, resource),
        after.handle == state.handle,
        after.accepted == state.accepted,
        after.signals == state.signals,
    ensures
        after.kept_by(callback, who),
{
    assert forall|other: ResourceId| #[trigger] after.resources.contains_key(other)
        && after.resources[other].has(callback) implies who(after.resources[other]) by {
        if other != id {
            assert(state.resources.contains_key(other));
        }
    }
}

/// Fewer resources keep the callback with those that may have it.
proof fn lemma_fewer_kept(
    state: LoopState,
    after: LoopState,
    callback: CallbackId,
    who: spec_fn(ResourceView) -> bool,
)
    requires
        state.kept_by(callback, who),
        forall|id: ResourceId| #[trigger]
            after.resources.contains_key(id) ==> state.resources.contains_key(id)
                && after.resources[id] == state.resources[id],
        after.handle.requests == state.handle.requests,
        after.accepted == state.accepted,
        after.signals == state.signals,
    ensures
        after.kept_by(callback, who),
{
}

/// Serving a request keeps the callback with those that may have it, and does
/// not run it.
proof fn lemma_served_kept(
    state: LoopState,
    request: RequestView,
    new: ResourceId,
    callback: CallbackId,
    who: spec_fn(ResourceView) -> bool,
)
    requires
        state.kept_by(callback, who),
        no_socket(who),
        state.servable(request),
        !request.brings(callback),
        request.adds(callback) ==> who(request.resource()->0),
    ensures
        state.served(request, new).0.kept_by(callback, who),
        !calls(state.served(request, new).1, callback),
{
    let (after, effects) = state.served(request, new);
    if request.resource() is Some {
        lemma_joined_kept(state, after, new, request.resource()->0, callback, who);
    }
    match request {
        RequestView::TcpWrite(shared, data, other) => {
            let id = state.id_of(shared);
            let stream = state.resources[id]->TcpStream_0;
            assert(state.resources.contains_key(id) && !stream_has(stream, callback));
            let changed = after.resources[id]->TcpStream_0;
            assert forall|i: int| 0 <= i < changed.write_queue.len() implies (
            #[trigger] changed.write_queue[i]).1 != callback by {
                if i < stream.write_queue.len() {
                    assert(stream.write_queue[i].1 != callback);
                }
            }
            lemma_joined_kept(state, after, id, after.resources[id], callback, who);
        },
        RequestView::TcpRead(shared, other) => {
            let id = state.id_of(shared);
            let stream = state.resources[id]->TcpStream_0;
            assert(state.resources.contains_key(id) && !stream_has(stream, callback));
            assert(after.resources[id]->TcpStream_0.write_queue == stream.write_queue);
            assert(!stream_has(after.resources[id]->TcpStream_0, callback));
            lemma_joined_kept(state, after, id, after.resources[id], callback, who);
        },
        RequestView::TcpShutdown(shared, other) => {
            let id = state.id_of(shared);
            if state.resources.contains_key(id) {
                lemma_destroyed_kept(state.resources[id], callback, who);
                lemma_joined_kept(state, after, id, after.resources[id], callback, who);
                let first = destroyed(state.resources[id]).1;
                assert(effects =~= first + seq![effects.last()]);
                lemma_calls_concat(first, seq![effects.last()], callback);
            }
        },
        RequestView::TcpClose(shared, other) => {
            let id = state.id_of(shared);
            let stream = state.resources[id]->TcpStream_0;
            assert(state.resources.contains_key(id) && !stream_has(stream, callback));
            assert(after.resources[id]->TcpStream_0.write_queue == stream.write_queue);
            assert(!stream_has(after.resources[id]->TcpStream_0, callback));
            lemma_joined_kept(state, after, id, after.resources[id], callback, who);
        },
        RequestView::TcpListenStop(shared, other) => {
            let id = state.id_of(shared);
            assert(state.resources.contains_key(id));
            lemma_joined_kept(state, after, id, after.resources[id], callback, who);
        },
        RequestView::SignalStart(number, signal) => {
            assert forall|other: i32, i: int|
                after.signals.contains_key(other) && 0 <= i < after.signals[other].len() implies (
            #[trigger] after.signals[other][i]).callback != callback by {
                if other != number {
                    assert(state.signals[other][i].callback != callback);
                } else if i < after.signals[other].len() - 1 {
                    assert(state.signals[number][i].callback != callback);
                }
            }
        },
        RequestView::SignalStop(id) => {
            lemma_unlistened_unheard(state.signals, id, callback);
        },
        RequestView::TimerStart(_) | RequestView::TcpInit(_) | RequestView::TcpListen(_)
        | RequestView::TaskSpawn(_, _) | RequestView::CheckInit(_) | RequestView::FsEventStart(_)
        | RequestView::FsWatcherStart(_) | RequestView::TtyReadStart(_) => {},
        _ => {
            lemma_fewer_kept(state, after, callback, who);
        },
    }
}

/// Destroying a resource that may not have a callback of a socket runs nothing
/// of it.
proof fn lemma_destroyed_kept(
    resource: ResourceView,
    callback: CallbackId,
    who: spec_fn(ResourceView) -> bool,
)
    requires
        resource.has(callback) ==> who(resource),
        no_socket(who),
    ensures
        destroyed(resource).0.has(callback) ==> who(destroyed(resource).0),
        !calls(destroyed(resource).1, callback),
{
    if let ResourceView::TcpStream(stream) = resource {
        assert(!stream_has(stream, callback));
        assert(stream.destroyed().0.write_queue == stream.write_queue);
        assert(!stream_has(stream.destroyed().0, callback));
    }
}

/// The expiry of timers keeps the callback with those that may have it, and runs
/// it only if it is that of a timer.
proof fn lemma_fired_kept(
    state: LoopState,
    ids: Seq<ResourceId>,
    callback: CallbackId,
    who: spec_fn(ResourceView) -> bool,
)
    requires
        state.kept_by(callback, who),
    ensures
        ({
            let (after, effects) = state.fired_all(ids);
            &&& after.kept_by(callback, who)
            &&& after.handle == state.handle
            &&& after.accepted == state.accepted
            &&& after.signals == state.signals
            &&& forall|id: ResourceId| #[trigger]
                after.resources.contains_key(id) ==> state.resources.contains_key(id)
                    && after.resources[id] == state.resources[id]
            &&& calls(effects, callback) ==> exists|id: ResourceId| #[trigger]
                state.holds(id, ResourceKind::Timer) && state.resources[id].has(callback)
        }),
    decreases ids.len(),
{
    if ids.len() > 0 {
        lemma_fired_kept(state, ids.drop_last(), callback, who);
        let (before, effects) = state.fired_all(ids.drop_last());
        let (after, more) = before.fired(ids.last());
        lemma_calls_concat(effects, more, callback);
        lemma_fewer_kept(state, after, callback, who);
        if calls(more, callback) {
            let i = choose|i: int|
                0 <= i < more.len() && called(#[trigger] more[i]) == Some(callback);
            assert(before.resources.contains_key(ids.last()));
            assert(state.holds(ids.last(), ResourceKind::Timer));
        }
    }
}

/// The check callbacks are those of check resources.
proof fn lemma_checked_calls(state: LoopState, ids: Seq<ResourceId>, callback: CallbackId)
    ensures
        calls(state.checked_all(ids), callback) ==> exists|id: ResourceId| #[trigger]
            state.holds(id, ResourceKind::Check) && state.resources[id].has(callback),
    decreases ids.len(),
{
    if ids.len() > 0 {
        lemma_checked_calls(state, ids.drop_last(), callback);
        let more = state.checked(ids.last());
        lemma_calls_concat(state.checked_all(ids.drop_last()), more, callback);
        if calls(more, callback) {
            let i = choose|i: int|
                0 <= i < more.len() && called(#[trigger] more[i]) == Some(callback);
            assert(state.holds(ids.last(), ResourceKind::Check));
        }
    }
}

/// Closing resources keeps the callback with those that may have it, and does
/// not run it.
proof fn lemma_closed_kept(
    state: LoopState,
    ids: Seq<ResourceId>,
    callback: CallbackId,
    who: spec_fn(ResourceView) -> bool,
)
    requires
        state.kept_by(callback, who),
        no_socket(who),
    ensures
        state.closed_all(ids).0.kept_by(callback, who),
        !calls(state.closed_all(ids).1, callback),
    decreases ids.len(),
{
    if ids.len() > 0 {
        lemma_closed_kept(state, ids.drop_last(), callback, who);
        let (before, effects) = state.closed_all(ids.drop_last());
        let id = ids.last();
        let (after, more) = before.closed(id);
        lemma_calls_concat(effects, more, callback);
        lemma_fewer_kept(before, after, callback, who);
        if before.resources.contains_key(id) {
            lemma_destroyed_kept(before.resources[id], callback, who);
            let first = destroyed(before.resources[id]).1;
            assert(more =~= first + seq![more.last()]);
            lemma_calls_concat(first, seq![more.last()], callback);
        }
    }
}

/// Whatever happens keeps a callback with those that may have it, and runs it
/// only as their kind is run.
pub proof fn step_keeps_callback(
    state: LoopState,
    step: Step,
    callback: CallbackId,
    who: spec_fn(ResourceView) -> bool,
)
    requires
        state.wf(),
        state.allows(step),
        state.kept_by(callback, who),
        no_socket(who),
        !state.hears(step, callback),
    ensures
        state.stepped(step).0.kept_by(callback, who),
        calls(state.stepped(step).1, callback) ==> state.can_call(step, callback),
{
    let (after, effects) = state.stepped(step);
    match step {
        Step::Use(handle) => {
            let count = state.handle.requests.len() as int;
            assert forall|i: int| 0 <= i < count implies #[trigger] handle.requests[i]
                == state.handle.requests[i] by {
                assert(handle.requests.take(count)[i] == handle.requests[i]);
            }
        },
        Step::Serve(id) => {
            let requests = state.handle.requests;
            let rest = state.received();
            assert forall|i: int| 0 <= i < rest.handle.requests.len() implies #[trigger]
                rest.handle.requests[i] == requests[i + 1] by {}
            assert(!requests[0].brings(callback));
            assert(rest.kept_by(callback, who));
            lemma_served_kept(rest, requests[0], id, callback, who);
        },
        Step::Timers => {
            let start = LoopState { timers: pending_from(state.timers, state.now), ..state };
            let due = expired_before(state.timers, state.now);
            lemma_fewer_kept(state, start, callback, who);
            lemma_fired_kept(start, due, callback, who);
            if calls(effects, callback) {
                let id = choose|id: ResourceId| #[trigger]
                    start.holds(id, ResourceKind::Timer) && start.resources[id].has(callback);
                assert(state.holds(id, ResourceKind::Timer));
            }
        },
        Step::Checks => {
            lemma_checked_calls(state, state.check_queue, callback);
        },
        Step::Closes => {
            let start = LoopState { close_queue: Seq::empty(), ..state };
            lemma_fewer_kept(state, start, callback, who);
            lemma_closed_kept(start, state.close_queue, callback, who);
        },
        Step::Event(event) => {
            lemma_fewer_kept(state, after, callback, who);
        },
        Step::Read(id, progress) => {
            assert(state.resources.contains_key(id));
            assert(!stream_has(state.resources[id]->TcpStream_0, callback));
            lemma_fewer_kept(state, after, callback, who);
        },
        Step::WriteStart(id, status) => {
            let stream = state.resources[id]->TcpStream_0;
            assert(state.resources.contains_key(id) && !stream_has(stream, callback));
            lemma_shorter_queue(stream, write_start(stream, id, status).stream, callback);
            lemma_joined_kept(state, after, id, after.resources[id], callback, who);
            if stream.write_queue.len() > 0 {
                assert(stream.write_queue[0].1 != callback);
            }
        },
        Step::Write(id, outcome) => {
            let stream = state.resources[id]->TcpStream_0;
            assert(state.resources.contains_key(id) && !stream_has(stream, callback));
            lemma_shorter_queue(stream, write_after(stream, outcome).0, callback);
            lemma_joined_kept(state, after, id, after.resources[id], callback, who);
            assert(stream.write_queue[0].1 != callback);
        },
        Step::Accept(id, outcome) => {
            assert(state.resources.contains_key(id));
        },
        Step::Join(id) => {
            let rest = LoopState { accepted: state.accepted.drop_first(), ..state };
            assert forall|i: int| 0 <= i < rest.accepted.len() implies !stream_has(
                #[trigger] rest.accepted[i],
                callback,
            ) by {
                assert(rest.accepted[i] == state.accepted[i + 1]);
            }
            assert(!stream_has(state.accepted[0], callback));
            lemma_joined_kept(
                rest,
                after,
                id,
                ResourceView::TcpStream(state.accepted[0]),
                callback,
                who,
            );
        },
        Step::Signals(numbers) => {
            lemma_signals_unheard(state.signals, numbers, callback);
        },
        Step::Interrupt(number) => {
            lemma_signaled_unheard(state.signals, number, callback);
        },
        Step::Clock(_) | Step::Skip | Step::WriteEnd(_) => {},
    }
}

/// A stream that has lost callbacks and entries of its queue has no more than it
/// had.
proof fn lemma_shorter_queue(stream: StreamView, after: StreamView, callback: CallbackId)
    requires
        !stream_has(stream, callback),
        after.on_connection is None || after.on_connection == stream.on_connection,
        after.on_read == stream.on_read,
        after.on_close == stream.on_close,
        after.write_queue == stream.write_queue || (stream.write_queue.len() > 0
            && after.write_queue == stream.write_queue.drop_first()),
    ensures
        !stream_has(after, callback),
{
    assert forall|i: int| 0 <= i < after.write_queue.len() implies (
    #[trigger] after.write_queue[i]).1 != callback by {
        if after.write_queue == stream.write_queue {
            assert(stream.write_queue[i].1 != callback);
        } else {
            assert(after.write_queue[i] == stream.write_queue[i + 1]);
        }
    }
}

/// Whether a resource is of the kind and has the reference.
pub open spec fn known_as(shared: SharedId, kind: ResourceKind) -> spec_fn(ResourceView) -> bool {
    |resource: ResourceView| resource.kind() == kind && resource.shared_id() == shared
}

impl LoopState {
    /// Whether the callback belongs to the resource of the given kind and
    /// reference alone, whether it is there, waits to be added or is gone.
    pub open spec fn belongs(
        self,
        callback: CallbackId,
        shared: SharedId,
        kind: ResourceKind,
    ) -> bool {
        &&& kind != ResourceKind::TcpStream
        &&& kind != ResourceKind::TcpListener
        &&& self.kept_by(callback, known_as(shared, kind))
    }
}

impl RequestView {
    /// What the request cancels: the resource of a reference.
    pub open spec fn cancels(self) -> Option<SharedId> {
        match self {
            RequestView::TimerCancel(shared) | RequestView::TaskCancel(shared)
            | RequestView::CheckRemove(shared) | RequestView::FsEventStop(shared)
            | RequestView::FsWatcherStop(shared) => Some(shared),
            _ => None,
        }
    }
}

/// A callback that nothing has is never run again, whatever happens, unless
/// someone brings it to the loop anew.
pub proof fn forgotten_callback_is_never_called(
    state: LoopState,
    steps: Seq<Step>,
    callback: CallbackId,
)
    requires
        state.wf(),
        state.allows_all(steps),
        state.forgot(callback),
        !state.hears_in(steps, callback),
    ensures
        !calls(state.ran(steps).1, callback),
        state.ran(steps).0.forgot(callback),
    decreases steps.len(),
{
    if steps.len() > 0 {
        forgotten_callback_is_never_called(state, steps.drop_last(), callback);
        let (before, effects) = state.ran(steps.drop_last());
        run_keeps_loop_sound(state, steps.drop_last());
        step_keeps_callback(before, steps.last(), callback, |resource: ResourceView| false);
        lemma_forgotten_is_not_called(before, steps.last(), callback);
        lemma_calls_concat(effects, before.stepped(steps.last()).1, callback);
    }
}

/// No step can run a callback that nothing has.
proof fn lemma_forgotten_is_not_called(state: LoopState, step: Step, callback: CallbackId)
    requires
        state.forgot(callback),
    ensures
        !state.can_call(step, callback),
{
    assert forall|id: ResourceId, kind: ResourceKind| #[trigger] state.holds(id, kind)
        implies !state.resources[id].has(callback) by {
        assert(state.resources.contains_key(id));
    }
}

/// A resource that has a callback of its own is the one that its reference is
/// linked to.
pub(crate) proof fn lemma_owner(
    state: LoopState,
    callback: CallbackId,
    shared: SharedId,
    kind: ResourceKind,
    id: ResourceId,
)
    requires
        state.wf(),
        state.belongs(callback, shared, kind),
        state.resources.contains_key(id),
        state.resources[id].has(callback),
    ensures
        state.links.contains_key(shared),
        state.id_of(shared) == id,
        state.holds(id, kind),
{
    assert(known_as(shared, kind)(state.resources[id]));
}

/// Where no request waits to add the owner of a callback and the owner is not
/// there, nothing has the callback.
pub(crate) proof fn lemma_ownerless(
    state: LoopState,
    callback: CallbackId,
    shared: SharedId,
    kind: ResourceKind,
)
    requires
        state.belongs(callback, shared, kind),
        forall|i: int|
            0 <= i < state.handle.requests.len() ==> (#[trigger] state.handle.requests[i]).starts()
                != Some(shared),
        forall|id: ResourceId| #[trigger]
            state.resources.contains_key(id) ==> !state.resources[id].has(callback),
    ensures
        state.forgot(callback),
{
    assert forall|i: int| 0 <= i < state.handle.requests.len() implies !(
    #[trigger] state.handle.requests[i]).adds(callback) by {
        if state.handle.requests[i].adds(callback) {
            assert(known_as(shared, kind)(state.handle.requests[i].resource()->0));
        }
    }
}

/// Canceling a resource makes the loop forget its callback, which is not run.
/// A request that starts it anew must not be waiting.
pub proof fn cancel_forgets_callback(
    state: LoopState,
    request: RequestView,
    callback: CallbackId,
    shared: SharedId,
    kind: ResourceKind,
)
    requires
        state.wf(),
        state.belongs(callback, shared, kind),
        request.cancels() == Some(shared),
        forall|i: int|
            0 <= i < state.handle.requests.len() ==> (#[trigger] state.handle.requests[i]).starts()
                != Some(shared),
    ensures
        state.served(request, 0).0.forgot(callback),
        !calls(state.served(request, 0).1, callback),
{
    let after = state.served(request, 0).0;
    lemma_served_kept(state, request, 0, callback, known_as(shared, kind));
    assert forall|id: ResourceId| #[trigger] after.resources.contains_key(
        id,
    ) implies !after.resources[id].has(callback) by {
        assert(state.resources.contains_key(id));
        if state.resources[id].has(callback) {
            lemma_owner(state, callback, shared, kind, id);
        }
    }
    lemma_ownerless(after, callback, shared, kind);
}

/// Serving requests keeps a callback with its owner and does not run it. Once
/// the request that cancels the owner is served, the loop has forgotten it.
proof fn lemma_canceled_in_queue(
    state: LoopState,
    count: nat,
    ids: Seq<ResourceId>,
    callback: CallbackId,
    shared: SharedId,
    kind: ResourceKind,
    cancel: int,
)
    requires
        state.wf(),
        state.all_servable(count, ids),
        state.belongs(callback, shared, kind),
        0 <= cancel < state.handle.requests.len(),
        state.handle.requests[cancel].cancels() == Some(shared),
        forall|i: int|
            cancel < i < state.handle.requests.len() ==> (
            #[trigger] state.handle.requests[i]).starts() != Some(shared),
    ensures
        ({
            let (after, effects) = state.served_all(count, ids);
            &&& after.belongs(callback, shared, kind)
            &&& count > cancel ==> after.forgot(callback)
            &&& !calls(effects, callback)
        }),
    decreases count,
{
    if count > 0 {
        let less = (count - 1) as nat;
        lemma_canceled_in_queue(state, less, ids, callback, shared, kind, cancel);
        lemma_served_requests(state, less, ids);
        let (before, effects) = state.served_all(less, ids);
        let request = before.handle.requests[0];
        let new = ids[count - 1];
        let step = Step::Serve(new);
        assert(state.handle.requests[less as int] == request);
        step_keeps_callback(before, step, callback, known_as(shared, kind));
        lemma_calls_concat(effects, before.stepped(step).1, callback);
        if less == cancel {
            lemma_received(before);
            let rest = before.received();
            assert forall|i: int| 0 <= i < rest.handle.requests.len() implies (
            #[trigger] rest.handle.requests[i]).starts() != Some(shared) by {
                assert(rest.handle.requests[i] == state.handle.requests[i + count]);
            }
            assert forall|i: int| 0 <= i < rest.handle.requests.len() implies #[trigger]
                rest.handle.requests[i] == before.handle.requests[i + 1] by {}
            assert(rest.belongs(callback, shared, kind));
            cancel_forgets_callback(rest, request, callback, shared, kind);
            assert(rest.served(request, new) == rest.served(request, 0));
        } else if less > cancel {
            step_keeps_callback(before, step, callback, |resource: ResourceView| false);
        }
    }
}

/// What is started and canceled before the loop serves the two requests never
/// has its callback run: neither by the loop as it serves them, nor in any run
/// that follows.
pub proof fn canceled_in_time_is_never_called(
    state: LoopState,
    start: int,
    cancel: int,
    callback: CallbackId,
    ids: Seq<ResourceId>,
    steps: Seq<Step>,
)
    requires
        state.wf(),
        0 <= start < cancel < ids.len(),
        state.all_servable(ids.len(), ids),
        state.handle.requests[start].adds(callback),
        ({
            let resource = state.handle.requests[start].resource()->0;
            &&& state.belongs(callback, resource.shared_id(), resource.kind())
            &&& state.handle.requests[cancel].cancels() == Some(resource.shared_id())
        }),
        state.served_all(ids.len(), ids).0.allows_all(steps),
        !state.served_all(ids.len(), ids).0.hears_in(steps, callback),
    ensures
        ({
            let (drained, effects) = state.served_all(ids.len(), ids);
            &&& !calls(effects, callback)
            &&& !calls(drained.ran(steps).1, callback)
            &&& drained.forgot(callback)
        }),
{
    let resource = state.handle.requests[start].resource()->0;
    let shared = resource.shared_id();
    lemma_served_requests(state, ids.len(), ids);
    assert forall|i: int| cancel < i < state.handle.requests.len() implies (
    #[trigger] state.handle.requests[i]).starts() != Some(shared) by {
        assert(state.handle.requests[start].starts() == Some(shared));
    }
    lemma_canceled_in_queue(state, ids.len(), ids, callback, shared, resource.kind(), cancel);
    forgotten_callback_is_never_called(state.served_all(ids.len(), ids).0, steps, callback);
}

/// What is canceled while it is there, and has not been heard of yet, never has
/// its callback run again, whatever follows. So a task that is canceled before
/// its report is processed never reaches its callback, though a worker may still
/// report it.
pub proof fn canceled_resource_is_never_called(
    state: LoopState,
    id: ResourceId,
    request: RequestView,
    callback: CallbackId,
    steps: Seq<Step>,
)
    requires
        state.wf(),
        state.resources.contains_key(id),
        ({
            let resource = state.resources[id];
            &&& state.belongs(callback, resource.shared_id(), resource.kind())
            &&& request.cancels() == Some(resource.shared_id())
        }),
        state.served(request, 0).0.allows_all(steps),
        !state.served(request, 0).0.hears_in(steps, callback),
    ensures
        ({
            let (after, effects) = state.served(request, 0);
            &&& !calls(effects, callback)
            &&& !calls(after.ran(steps).1, callback)
            &&& !after.resources.contains_key(id)
        }),
{
    let resource = state.resources[id];
    let shared = resource.shared_id();
    assert forall|i: int| 0 <= i < state.handle.requests.len() implies (
    #[trigger] state.handle.requests[i]).starts() != Some(shared) by {
        if state.handle.requests[i].starts() == Some(shared) {
            assert(state.unlinked(shared));
        }
    }
    cancel_forgets_callback(state, request, callback, shared, resource.kind());
    lemma_served(state, request, 0);
    forgotten_callback_is_never_called(state.served(request, 0).0, steps, callback);
}

} // verus!
