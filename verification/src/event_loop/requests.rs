//! Serving the requests that are made through the handle.

use crate::check::Check;
use crate::effect::{lemma_viewed_concat, viewed, Effect, EffectView, Interest};
use crate::event_loop::lemmas::{lemma_later_ids, lemma_received, lemma_served};
use crate::event_loop::state::plain;
use crate::event_loop::{EventLoop, Request, RequestView};
use crate::fs::FsWatcher;
use crate::fs_event::FsEvent;
use crate::resource::{
    null_id, token, CallbackId, Resource, ResourceId, ResourceKind, SharedId, WorkId,
    MAX_RESOURCES,
};
use crate::signals::{unlistened, Signal, SignalNum};
use crate::task::Task;
use crate::tcp_listener::TcpListener;
use crate::tcp_stream::TcpStream;
use crate::timers::Timer;
use crate::tty::TtyReader;
use vstd::prelude::*;

verus! {

broadcast use vstd::std_specs::hash::group_hash_axioms;

/// What draining the request queue has led to.
#[derive(Debug, PartialEq, Eq)]
pub struct Drained {
    pub effects: Vec<Effect>,
    /// Whether a request is left at the front of the queue that cannot be
    /// served.
    pub stuck: bool,
}

/// The effects of removing a listener hold no bytes and no resource.
proof fn lemma_released_plain(handlers: crate::signals::Handlers, id: u64)
    ensures
        viewed(unlistened(handlers, id).1) == plain(unlistened(handlers, id).1),
{
    if exists|number: i32| crate::signals::listens(handlers, number, id) {
        let number = choose|number: i32| crate::signals::listens(handlers, number, id);
        lemma_list_released_plain(handlers[number], id);
    }
    assert(viewed(unlistened(handlers, id).1) =~= plain(unlistened(handlers, id).1));
}

/// The effects of removing a listener from a list are releases.
pub(crate) proof fn lemma_list_released_plain(list: Seq<Signal>, id: u64)
    ensures
        forall|i: int|
            0 <= i < crate::signals::released(list, id).len() ==> (
            #[trigger] crate::signals::released(list, id)[i]) is Release,
    decreases list.len(),
{
    if list.len() > 0 {
        lemma_list_released_plain(list.drop_last(), id);
    }
}

impl EventLoop {
    /// Returns the resource that a reference is linked to.
    pub(crate) fn resolve(&self, shared: SharedId) -> (id: ResourceId)
        ensures
            id == self@.id_of(shared),
    {
        match self.links.get(&shared) {
            Some(id) => *id,
            None => null_id(),
        }
    }

    /// Returns true if a resource of the given kind has the identifier.
    pub(crate) fn holds(&self, id: ResourceId, kind: ResourceKind) -> (held: bool)
        requires
            self@.wf(),
        ensures
            held == self@.holds(id, kind),
    {
        match self.resources.get(id) {
            Some(resource) => resource.kind() == kind,
            None => false,
        }
    }

    /// Adds a resource and links its reference to it.
    pub(crate) fn add_resource(&mut self, resource: Resource) -> (id: ResourceId)
        requires
            old(self)@.wf(),
            old(self)@.resources.len() < MAX_RESOURCES,
        ensures
            old(self)@.available(id),
            final(self)@ == old(self)@.joined(id, resource@),
    {
        let shared = resource.shared_id();
        let id = self.resources.insert(resource);
        self.links.insert(shared, id);
        assert(self@ =~= old(self)@.joined(id, resource@));
        assert(self@.resources.contains_key(id));
        id
    }

    /// Removes a resource and the link to it.
    pub(crate) fn remove_resource(&mut self, id: ResourceId) -> (removed: Option<Resource>)
        requires
            crate::resource::keys_sound(old(self)@.resources),
            crate::resource::issued_sound(old(self)@.issued),
        ensures
            match removed {
                Some(resource) => old(self)@.resources.contains_key(id) && resource@
                    == old(self)@.resources[id] && final(self)@ == old(self)@.left(id),
                None => !old(self)@.resources.contains_key(id) && final(self)@ == old(self)@,
            },
    {
        match self.resources.remove(id) {
            Some(resource) => {
                self.links.remove(&resource.shared_id());
                assert(self@ =~= old(self)@.left(id));
                Some(resource)
            },
            None => {
                assert(self@ =~= old(self)@);
                None
            },
        }
    }

    /// Removes the resource that a reference is linked to.
    fn drop_resource(&mut self, shared: SharedId) -> (effects: Vec<Effect>)
        requires
            old(self)@.wf(),
        ensures
            (final(self)@, viewed(effects@)) == old(self)@.dropped(shared),
    {
        let id = self.resolve(shared);
        self.discard_resource(id)
    }

    /// Removes a resource, if it is there.
    fn discard_resource(&mut self, id: ResourceId) -> (effects: Vec<Effect>)
        requires
            old(self)@.wf(),
        ensures
            (final(self)@, viewed(effects@)) == old(self)@.discarded(id),
    {
        let mut effects: Vec<Effect> = Vec::new();
        if let Some(resource) = self.remove_resource(id) {
            effects.push(Effect::Drop(resource));
        }
        assert(viewed(effects@) =~= old(self)@.discarded(id).1);
        effects
    }

    /// Schedules a new timer in the event-loop.
    fn timer_start(&mut self, timer: Timer) -> (id: ResourceId)
        requires
            old(self)@.wf(),
            old(self)@.admits(RequestView::TimerStart(timer)),
        ensures
            old(self)@.available(id),
            final(self)@ == old(self)@.served(RequestView::TimerStart(timer), id).0,
    {
        let expires_at = self.current_time + timer.delay;
        let id = self.add_resource(Resource::Timer(timer));
        self.timers.insert(expires_at, id);
        assert(self@ =~= old(self)@.served(RequestView::TimerStart(timer), id).0);
        id
    }

    /// Removes a previously scheduled timer.
    fn timer_cancel(&mut self, shared: SharedId) -> (effects: Vec<Effect>)
        requires
            old(self)@.wf(),
        ensures
            (final(self)@, viewed(effects@)) == old(self)@.dropped(shared),
    {
        // To achieve O(1) cancellation, we remove the resource but keep the entry
        // in the timer collection. When processing expired timers, canceled
        // ones are simply ignored.
        self.drop_resource(shared)
    }

    /// Schedules a new task for execution to the event-loop.
    fn task_spawn(&mut self, task: Task, work: WorkId) -> (spawned: (ResourceId, Effect))
        requires
            old(self)@.wf(),
            old(self)@.admits(RequestView::TaskSpawn(task, work)),
        ensures
            old(self)@.available(spawned.0),
            (final(self)@, seq![spawned.1@]) == old(self)@.served(
                RequestView::TaskSpawn(task, work),
                spawned.0,
            ),
    {
        let cancelation = task.cancelation;
        let id = self.add_resource(Resource::Task(task));
        let effect = self.thread_pool.spawn(id, work, cancelation);
        assert(self@ =~= old(self)@.served(RequestView::TaskSpawn(task, work), id).0);
        (id, effect)
    }

    /// Initializes a new tcp connection.
    fn tcp_stream_init(&mut self, stream: TcpStream) -> (started: (ResourceId, Effect))
        requires
            old(self)@.wf(),
            old(self)@.admits(RequestView::TcpInit(stream@)),
        ensures
            old(self)@.available(started.0),
            (final(self)@, seq![started.1@]) == old(self)@.served(
                RequestView::TcpInit(stream@),
                started.0,
            ),
    {
        let socket = stream.socket;
        let id = self.add_resource(Resource::TcpStream(stream));
        // When we create a new tcp socket connection we have to make sure
        // it's well connected with the remote host.
        (id, Effect::Register(socket, token(id), Interest::Writable))
    }

    /// Initializes a new tcp listener.
    fn tcp_listener_init(&mut self, listener: TcpListener) -> (started: (ResourceId, Effect))
        requires
            old(self)@.wf(),
            old(self)@.admits(RequestView::TcpListen(listener)),
        ensures
            old(self)@.available(started.0),
            (final(self)@, seq![started.1@]) == old(self)@.served(
                RequestView::TcpListen(listener),
                started.0,
            ),
    {
        let socket = listener.socket;
        let id = self.add_resource(Resource::TcpListener(listener));
        (id, Effect::Register(socket, token(id), Interest::Readable))
    }

    /// Registers interest for writing to a tcp socket.
    fn tcp_stream_write(
        &mut self,
        shared: SharedId,
        data: Vec<u8>,
        callback: CallbackId,
    ) -> (effects: Vec<Effect>)
        requires
            old(self)@.wf(),
            old(self)@.admits(RequestView::TcpWrite(shared, data@, callback)),
        ensures
            (final(self)@, viewed(effects@)) == old(self)@.served(
                RequestView::TcpWrite(shared, data@, callback),
                0,
            ),
    {
        let mut effects: Vec<Effect> = Vec::new();
        let id = self.resolve(shared);
        if let Some(stream) = self.resources.get_mut_as::<TcpStream>(id) {
            stream.enqueue(data, callback);
            effects.push(Effect::Reregister(stream.socket, token(id), Interest::Both));
        }
        proof {
            let (after, expected) = old(self)@.served(
                RequestView::TcpWrite(shared, data@, callback),
                0,
            );
            assert(viewed(effects@) =~= expected);
            assert(self@ =~= after);
        }
        effects
    }

    /// Registers interest for reading from a tcp socket.
    fn tcp_stream_read_start(&mut self, shared: SharedId, callback: CallbackId) -> (effects: Vec<
        Effect,
    >)
        requires
            old(self)@.wf(),
            old(self)@.admits(RequestView::TcpRead(shared, callback)),
        ensures
            (final(self)@, viewed(effects@)) == old(self)@.served(
                RequestView::TcpRead(shared, callback),
                0,
            ),
    {
        let mut effects: Vec<Effect> = Vec::new();
        let id = self.resolve(shared);
        if let Some(stream) = self.resources.get_mut_as::<TcpStream>(id) {
            if let Some(replaced) = stream.on_read {
                effects.push(Effect::Release(replaced));
            }
            stream.on_read = Some(callback);
            effects.push(Effect::Reregister(stream.socket, token(id), stream.read_interest()));
        }
        proof {
            let (after, expected) = old(self)@.served(RequestView::TcpRead(shared, callback), 0);
            assert(viewed(effects@) =~= expected);
            assert(self@ =~= after);
        }
        effects
    }

    /// Schedules a full tcp stream shutdown.
    fn tcp_stream_close(&mut self, shared: SharedId, callback: CallbackId) -> (effects: Vec<Effect>)
        requires
            old(self)@.wf(),
            old(self)@.admits(RequestView::TcpClose(shared, callback)),
        ensures
            (final(self)@, viewed(effects@)) == old(self)@.served(
                RequestView::TcpClose(shared, callback),
                0,
            ),
    {
        let mut effects: Vec<Effect> = Vec::new();
        let id = self.resolve(shared);
        if let Some(stream) = self.resources.get_mut_as::<TcpStream>(id) {
            if let Some(replaced) = stream.on_close {
                effects.push(Effect::Release(replaced));
            }
            stream.on_close = Some(callback);
        }
        self.close_queue.push(id);
        proof {
            let (after, expected) = old(self)@.served(RequestView::TcpClose(shared, callback), 0);
            assert(viewed(effects@) =~= expected);
            assert(self@ =~= after);
        }
        effects
    }

    /// Stops the listener from accepting new connections.
    fn tcp_listener_stop(&mut self, shared: SharedId, callback: CallbackId) -> (effects: Vec<
        Effect,
    >)
        requires
            old(self)@.wf(),
            old(self)@.admits(RequestView::TcpListenStop(shared, callback)),
        ensures
            (final(self)@, viewed(effects@)) == old(self)@.served(
                RequestView::TcpListenStop(shared, callback),
                0,
            ),
    {
        let mut effects: Vec<Effect> = Vec::new();
        let id = self.resolve(shared);
        if let Some(listener) = self.resources.get_mut_as::<TcpListener>(id) {
            if let Some(replaced) = listener.on_close {
                effects.push(Effect::Release(replaced));
            }
            listener.on_close = Some(callback);
        }
        self.close_queue.push(id);
        proof {
            let (after, expected) = old(self)@.served(
                RequestView::TcpListenStop(shared, callback),
                0,
            );
            assert(viewed(effects@) =~= expected);
            assert(self@ =~= after);
        }
        effects
    }

    /// Closes the write side of the tcp stream.
    fn tcp_stream_shutdown(&mut self, shared: SharedId, callback: CallbackId) -> (effects: Vec<
        Effect,
    >)
        requires
            old(self)@.wf(),
        ensures
            (final(self)@, viewed(effects@)) == old(self)@.served(
                RequestView::TcpShutdown(shared, callback),
                0,
            ),
    {
        let id = self.resolve(shared);
        let ghost expected = old(self)@.served(RequestView::TcpShutdown(shared, callback), 0);
        match self.resources.get_mut(id) {
            Some(resource) => {
                let mut effects = resource.destroy();
                let ghost destroying = effects@;
                effects.push(Effect::CloseCallback(callback));
                assert(viewed(effects@) =~= viewed(destroying).push(
                    EffectView::Plain(Effect::CloseCallback(callback)),
                ));
                assert(self@ =~= expected.0);
                effects
            },
            None => {
                let mut effects: Vec<Effect> = Vec::new();
                effects.push(Effect::Release(callback));
                assert(viewed(effects@) =~= expected.1);
                assert(self@ =~= expected.0);
                effects
            },
        }
    }

    /// Initializes a check resources to the event-loop.
    fn check_init(&mut self, check: Check) -> (id: ResourceId)
        requires
            old(self)@.wf(),
            old(self)@.admits(RequestView::CheckInit(check)),
        ensures
            old(self)@.available(id),
            final(self)@ == old(self)@.served(RequestView::CheckInit(check), id).0,
    {
        let id = self.add_resource(Resource::Check(check));
        self.check_queue.push(id);
        assert(self@ =~= old(self)@.served(RequestView::CheckInit(check), id).0);
        id
    }

    /// Removes a check resource from the event-loop.
    fn check_remove(&mut self, shared: SharedId) -> (effects: Vec<Effect>)
        requires
            old(self)@.wf(),
        ensures
            (final(self)@, viewed(effects@)) == old(self)@.served(
                RequestView::CheckRemove(shared),
                0,
            ),
    {
        let id = self.resolve(shared);
        let effects = self.drop_resource(shared);
        let mut kept: Vec<ResourceId> = Vec::new();
        let ghost keep = |other: ResourceId| other != id;
        let ghost queue = self.check_queue@;
        for i in 0..self.check_queue.len()
            invariant
                kept@ == queue.take(i as int).filter(keep),
                queue == self.check_queue@,
                keep == (|other: ResourceId| other != id),
        {
            let other = self.check_queue[i];
            proof {
                reveal(Seq::filter);
                assert(queue.take(i + 1).drop_last() =~= queue.take(i as int));
                assert(queue.take(i + 1).last() == other);
            }
            if other != id {
                kept.push(other);
            }
        }
        assert(queue.take(queue.len() as int) =~= queue);
        self.check_queue = kept;
        assert(self@ =~= old(self)@.served(RequestView::CheckRemove(shared), 0).0);
        effects
    }

    /// Initializes and starts a new file-system event resource.
    fn fs_event_start(&mut self, fs_event: FsEvent) -> (started: (ResourceId, Effect))
        requires
            old(self)@.wf(),
            old(self)@.admits(RequestView::FsEventStart(fs_event)),
        ensures
            old(self)@.available(started.0),
            (final(self)@, seq![started.1@]) == old(self)@.served(
                RequestView::FsEventStart(fs_event),
                started.0,
            ),
    {
        let path = fs_event.path;
        let mode = fs_event.mode;
        let id = self.add_resource(Resource::FsEvent(fs_event));
        // Note: The watcher requires a valid resource ID, which is only assigned
        // once the resource has been inserted.
        let effect = match self.resources.get_mut_as::<FsEvent>(id) {
            Some(fs_event) => fs_event.watch(id),
            None => Effect::StartWatch(id, path, mode),
        };
        assert(self@ =~= old(self)@.served(RequestView::FsEventStart(fs_event), id).0);
        (id, effect)
    }

    /// Initializes and starts a new file-system watcher.
    fn fs_watcher_start(&mut self, watcher: FsWatcher) -> (started: (ResourceId, Effect))
        requires
            old(self)@.wf(),
            old(self)@.admits(RequestView::FsWatcherStart(watcher)),
        ensures
            old(self)@.available(started.0),
            (final(self)@, seq![started.1@]) == old(self)@.served(
                RequestView::FsWatcherStart(watcher),
                started.0,
            ),
    {
        let mut watcher = watcher;
        let ghost given = watcher;
        let id = self.add_resource(Resource::FsWatcher(watcher));
        let effect = match self.resources.get_mut_as::<FsWatcher>(id) {
            Some(stored) => stored.watch(id),
            None => watcher.watch(id),
        };
        assert(self@ =~= old(self)@.served(RequestView::FsWatcherStart(given), id).0);
        (id, effect)
    }

    /// Starts to listen to a signal.
    fn signal_start(&mut self, signum: SignalNum, signal: Signal) -> (effect: Effect)
        ensures
            (final(self)@, seq![effect@]) == old(self)@.served(
                RequestView::SignalStart(signum@, signal),
                0,
            ),
    {
        let number: i32 = signum.number();
        self.signals.add_handler(signum, signal);
        assert(self@ =~= old(self)@.served(RequestView::SignalStart(number, signal), 0).0);
        Effect::WatchSignal(number)
    }

    /// Stops listening to a signal.
    fn signal_stop(&mut self, id: u64) -> (effects: Vec<Effect>)
        requires
            old(self)@.wf(),
        ensures
            (final(self)@, viewed(effects@)) == old(self)@.served(RequestView::SignalStop(id), 0),
    {
        let effects = self.signals.remove_handler(id);
        proof {
            lemma_released_plain(old(self)@.signals, id);
            assert(self@ =~= old(self)@.served(RequestView::SignalStop(id), 0).0);
            assert(viewed(effects@) =~= plain(effects@));
        }
        effects
    }

    /// Starts reading from the terminal.
    fn tty_read_start(&mut self, reader: TtyReader) -> (started: (ResourceId, Effect))
        requires
            old(self)@.wf(),
            old(self)@.admits(RequestView::TtyReadStart(reader)),
        ensures
            old(self)@.available(started.0),
            (final(self)@, seq![started.1@]) == old(self)@.served(
                RequestView::TtyReadStart(reader),
                started.0,
            ),
    {
        let stop = reader.stop;
        let tty = reader.tty;
        let id = self.add_resource(Resource::TtyReader(reader));
        self.ttys.insert(tty, id);
        assert(self@ =~= old(self)@.served(RequestView::TtyReadStart(reader), id).0);
        (id, Effect::StartTtyRead(id, stop))
    }

    /// Removes a previously queued task.
    fn task_cancel(&mut self, shared: SharedId) -> (effects: Vec<Effect>)
        requires
            old(self)@.wf(),
        ensures
            (final(self)@, viewed(effects@)) == old(self)@.dropped(shared),
    {
        // We only need to remove the resource from the map. If a task is already
        // running in the thread pool, its result will be discarded when
        // finished tasks are processed.
        self.drop_resource(shared)
    }

    /// Stops and removes a file-system event resource from the event-loop.
    fn fs_event_stop(&mut self, shared: SharedId) -> (effects: Vec<Effect>)
        requires
            old(self)@.wf(),
        ensures
            (final(self)@, viewed(effects@)) == old(self)@.dropped(shared),
    {
        self.drop_resource(shared)
    }

    /// Stops and removes a file-system watcher from the event-loop.
    fn fs_watcher_stop(&mut self, shared: SharedId) -> (effects: Vec<Effect>)
        requires
            old(self)@.wf(),
        ensures
            (final(self)@, viewed(effects@)) == old(self)@.dropped(shared),
    {
        self.drop_resource(shared)
    }

    /// Stops reading from the terminal.
    fn tty_close(&mut self, tty: SharedId) -> (effects: Vec<Effect>)
        requires
            old(self)@.wf(),
        ensures
            (final(self)@, viewed(effects@)) == old(self)@.served(RequestView::TtyClose(tty), 0),
    {
        let id = match self.ttys.get(&tty) {
            Some(id) => *id,
            None => null_id(),
        };
        if self.holds(id, ResourceKind::TtyReader) {
            self.discard_resource(id)
        } else {
            let effects: Vec<Effect> = Vec::new();
            assert(viewed(effects@) =~= Seq::empty());
            effects
        }
    }

    /// Returns true if a request can be served.
    fn can_serve(&self, request: &Request) -> (servable: bool)
        requires
            self@.wf(),
        ensures
            servable == self@.servable(request@),
    {
        let room = self.resources.len() < MAX_RESOURCES;
        match request {
            Request::TcpWrite(shared, _, _) | Request::TcpRead(shared, _)
            | Request::TcpClose(shared, _) => self.holds(
                self.resolve(*shared),
                ResourceKind::TcpStream,
            ),
            Request::TcpListenStop(shared, _) => self.holds(
                self.resolve(*shared),
                ResourceKind::TcpListener,
            ),
            Request::TaskSpawn(_, _) => room && self.thread_pool.pending_count() < usize::MAX,
            Request::TimerStart(_) | Request::TcpInit(_) | Request::TcpListen(_)
            | Request::CheckInit(_) | Request::FsEventStart(_) | Request::FsWatcherStart(_)
            | Request::TtyReadStart(_) => room,
            _ => true,
        }
    }

    /// Serves one request. Returns the identifier of the resource that it adds,
    /// if it adds one, and what to do.
    fn process_request(&mut self, request: Request) -> (served: (ResourceId, Vec<Effect>))
        requires
            old(self)@.wf(),
            old(self)@.admits(request@),
        ensures
            request@.resource() is Some ==> old(self)@.available(served.0),
            (final(self)@, viewed(served.1@)) == old(self)@.served(request@, served.0),
    {
        let ghost view = request@;
        let mut effects: Vec<Effect> = Vec::new();
        let mut new: ResourceId = 0;
        match request {
            Request::TimerStart(timer) => {
                new = self.timer_start(timer);
            },
            Request::TimerCancel(id) => {
                effects = self.timer_cancel(id);
            },
            Request::TcpInit(stream) => {
                let (id, effect) = self.tcp_stream_init(stream);
                new = id;
                effects.push(effect);
            },
            Request::TcpRead(id, callback) => {
                effects = self.tcp_stream_read_start(id, callback);
            },
            Request::TcpWrite(id, data, callback) => {
                effects = self.tcp_stream_write(id, data, callback);
            },
            Request::TcpShutdown(id, callback) => {
                effects = self.tcp_stream_shutdown(id, callback);
            },
            Request::TcpClose(id, callback) => {
                effects = self.tcp_stream_close(id, callback);
            },
            Request::TcpListen(listener) => {
                let (id, effect) = self.tcp_listener_init(listener);
                new = id;
                effects.push(effect);
            },
            Request::TcpListenStop(id, callback) => {
                effects = self.tcp_listener_stop(id, callback);
            },
            Request::TaskSpawn(task, work) => {
                let (id, effect) = self.task_spawn(task, work);
                new = id;
                effects.push(effect);
            },
            Request::TaskCancel(id) => {
                effects = self.task_cancel(id);
            },
            Request::CheckInit(check) => {
                new = self.check_init(check);
            },
            Request::CheckRemove(id) => {
                effects = self.check_remove(id);
            },
            Request::FsEventStart(fs_event) => {
                let (id, effect) = self.fs_event_start(fs_event);
                new = id;
                effects.push(effect);
            },
            Request::FsEventStop(id) => {
                effects = self.fs_event_stop(id);
            },
            Request::FsWatcherStart(watcher) => {
                let (id, effect) = self.fs_watcher_start(watcher);
                new = id;
                effects.push(effect);
            },
            Request::FsWatcherStop(id) => {
                effects = self.fs_watcher_stop(id);
            },
            Request::SignalStart(signum, signal) => {
                effects.push(self.signal_start(signum, signal));
            },
            Request::SignalStop(id) => {
                effects = self.signal_stop(id);
            },
            Request::TtyReadStart(reader) => {
                let (id, effect) = self.tty_read_start(reader);
                new = id;
                effects.push(effect);
            },
            Request::TtyClose(id) => {
                effects = self.tty_close(id);
            },
        }
        assert(viewed(effects@) =~= old(self)@.served(view, new).1);
        (new, effects)
    }

    /// Drains the request queue to schedule new workload.
    pub fn process_requests(&mut self) -> (drained: Drained)
        requires
            old(self)@.wf(),
        ensures
            final(self)@.wf(),
            old(self)@.drains_to(final(self)@, viewed(drained.effects@), drained.stuck),
    {
        let mut effects: Vec<Effect> = Vec::new();
        let ghost mut count: nat = 0;
        let ghost mut ids: Seq<ResourceId> = Seq::empty();
        assert(viewed(effects@) =~= Seq::empty());
        loop
            invariant
                self@.wf(),
                ids.len() == count,
                old(self)@.all_servable(count, ids),
                (self@, viewed(effects@)) == old(self)@.served_all(count, ids),
                self@.handle.requests.len() + count == old(self)@.handle.requests.len(),
            ensures
                self@.wf(),
                ids.len() == count,
                old(self)@.all_servable(count, ids),
                (self@, viewed(effects@)) == old(self)@.served_all(count, ids),
                count == old(self)@.handle.requests.len(),
                self@.handle.requests.len() == 0,
            decreases self@.handle.requests.len(),
        {
            let servable = match self.handle.peek() {
                Some(request) => self.can_serve(request),
                None => {
                    break ;
                },
            };
            if !servable {
                assert(old(self)@.drains_by(count, ids, self@, viewed(effects@), true));
                return Drained { effects, stuck: true };
            }
            let ghost before = self@;
            let ghost earlier = effects@;
            if let Some(request) = self.handle.receive() {
                proof {
                    lemma_received(before);
                    assert(self@ =~= before.received());
                }
                let (new, mut more) = self.process_request(request);
                proof {
                    lemma_served(before.received(), request@, new);
                    lemma_later_ids(old(self)@, count, ids, new);
                    lemma_viewed_concat(earlier, more@);
                    ids = ids.push(new);
                    count = count + 1;
                }
                effects.append(&mut more);
            }
        }
        assert(old(self)@.drains_by(count, ids, self@, viewed(effects@), false));
        Drained { effects, stuck: false }
    }
}

} // verus!
