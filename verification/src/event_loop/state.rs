//! What an event-loop holds, and what every step makes of it.

use crate::check::CheckHandle;
use crate::effect::{Effect, EffectView, Failure, Interest};
use crate::event_loop::{Event, HandleView, NetworkTarget, Phase, RequestView, RunMode};
use crate::fs::{FsWatcher, FsWatcherHandle};
use crate::fs_event::{FsEvent, FsEventHandle};
use crate::resource::{
    holds_kind, id_of_token, is_key, issued_sound, keys_sound, token_of, CallbackId, ResourceId,
    ResourceKind, ResourceView, SharedId, KEY_LIMIT, MAX_RESOURCES, NULL_ID,
};
use crate::signals::{listens, references_unique, unlistened, Handlers, Signal};
use crate::task::Task;
use crate::tcp_listener::{accepted_stream, AcceptOutcome, TcpListener, TcpListenerHandle};
use crate::tcp_stream::{
    read_closes, read_effects, write_after, write_start, ReadView, SocketStatus, StreamView,
    TcpEventKind, TcpStreamHandle, WriteOutcome,
};
use crate::thread_pool::ThreadPool;
use crate::timers::{
    expired_before, is_alone, is_earliest, is_scheduled, pending_from, scheduled, Nanos, TimerKind,
    MAX_SPAN,
};
use crate::tty::TtyHandle;
use vstd::prelude::*;

verus! {

/// What an [`EventLoop`](crate::event_loop::EventLoop) holds.
#[verifier::ext_equal]
pub struct LoopState {
    /// The time of the current iteration.
    pub now: Nanos,
    pub resources: Map<ResourceId, ResourceView>,
    /// The identifiers that resources were given so far.
    pub issued: Set<ResourceId>,
    /// The resources that the shared references are linked to.
    pub links: Map<SharedId, ResourceId>,
    /// The readers that were started last, by the references of their terminals.
    pub ttys: Map<SharedId, ResourceId>,
    pub timers: Map<Nanos, Seq<ResourceId>>,
    pub check_queue: Seq<ResourceId>,
    pub close_queue: Seq<ResourceId>,
    /// The streams of new connections that are not among the resources yet.
    pub accepted: Seq<StreamView>,
    pub pool: ThreadPool,
    pub signals: Handlers,
    pub handle: HandleView,
}

impl RequestView {
    /// The reference that the request is to be linked to something, if it
    /// starts something.
    pub open spec fn starts(self) -> Option<SharedId> {
        match self {
            RequestView::SignalStart(_, signal) => Some(signal.id),
            _ => match self.resource() {
                Some(resource) => Some(resource.shared_id()),
                None => None,
            },
        }
    }

    /// The resource that the request adds to the loop.
    pub open spec fn resource(self) -> Option<ResourceView> {
        match self {
            RequestView::TimerStart(timer) => Some(ResourceView::Timer(timer)),
            RequestView::TcpInit(stream) => Some(ResourceView::TcpStream(stream)),
            RequestView::TcpListen(listener) => Some(ResourceView::TcpListener(listener)),
            RequestView::TaskSpawn(task, _) => Some(ResourceView::Task(task)),
            RequestView::CheckInit(check) => Some(ResourceView::Check(check)),
            RequestView::FsEventStart(fs_event) => Some(
                ResourceView::FsEvent(FsEvent { watching: true, ..fs_event }),
            ),
            RequestView::FsWatcherStart(watcher) => Some(
                ResourceView::FsWatcher(FsWatcher { watching: true, ..watcher }),
            ),
            RequestView::TtyReadStart(reader) => Some(ResourceView::TtyReader(reader)),
            _ => None,
        }
    }
}

/// A resource after `destroy`, and the effects of it.
pub open spec fn destroyed(resource: ResourceView) -> (ResourceView, Seq<EffectView>) {
    match resource {
        ResourceView::TcpStream(stream) => (
            ResourceView::TcpStream(stream.destroyed().0),
            stream.destroyed().1,
        ),
        _ => (resource, Seq::empty()),
    }
}

/// The effect of forgetting a callback, if there is one.
pub open spec fn forgotten(callback: Option<CallbackId>) -> Seq<EffectView> {
    match callback {
        Some(callback) => seq![EffectView::Plain(Effect::Release(callback))],
        None => Seq::empty(),
    }
}

/// Effects that hold no bytes and no resource, as a list of any effects.
pub open spec fn plain(effects: Seq<Effect>) -> Seq<EffectView> {
    effects.map_values(|effect: Effect| EffectView::Plain(effect))
}

impl LoopState {
    /// A loop at its start.
    pub open spec fn start(num_threads: usize) -> LoopState {
        LoopState {
            now: 0,
            resources: Map::empty(),
            issued: Set::empty(),
            links: Map::empty(),
            ttys: Map::empty(),
            timers: Map::empty(),
            check_queue: Seq::empty(),
            close_queue: Seq::empty(),
            accepted: Seq::empty(),
            pool: ThreadPool { num_threads, pending: 0 },
            signals: Map::empty(),
            handle: HandleView::start(),
        }
    }

    /// The resource that a reference is linked to, or the null identifier.
    pub open spec fn id_of(self, shared: SharedId) -> ResourceId {
        if self.links.contains_key(shared) {
            self.links[shared]
        } else {
            NULL_ID
        }
    }

    /// The reader of a terminal that was started last, or the null identifier.
    pub open spec fn reader_of(self, tty: SharedId) -> ResourceId {
        if self.ttys.contains_key(tty) {
            self.ttys[tty]
        } else {
            NULL_ID
        }
    }

    pub open spec fn holds(self, id: ResourceId, kind: ResourceKind) -> bool {
        holds_kind(self.resources, id, kind)
    }

    /// Whether there is pending work still ongoing.
    pub open spec fn pending(self) -> bool {
        ||| self.resources != Map::<ResourceId, ResourceView>::empty()
        ||| !self.handle.queue_empty
        ||| self.pool.pending != 0
    }

    /// A resource joins the loop.
    pub open spec fn joined(self, id: ResourceId, resource: ResourceView) -> LoopState {
        LoopState {
            resources: self.resources.insert(id, resource),
            issued: self.issued.insert(id),
            links: self.links.insert(resource.shared_id(), id),
            ..self
        }
    }

    /// A resource leaves the loop.
    pub open spec fn left(self, id: ResourceId) -> LoopState {
        LoopState {
            resources: self.resources.remove(id),
            links: self.links.remove(self.resources[id].shared_id()),
            ..self
        }
    }

    /// A resource changes.
    pub open spec fn changed(self, id: ResourceId, resource: ResourceView) -> LoopState {
        LoopState { resources: self.resources.insert(id, resource), ..self }
    }

    /// The resource that a reference is linked to leaves the loop, whatever it
    /// is.
    pub open spec fn dropped(self, shared: SharedId) -> (LoopState, Seq<EffectView>) {
        self.discarded(self.id_of(shared))
    }

    /// A resource leaves the loop, if it is there.
    pub open spec fn discarded(self, id: ResourceId) -> (LoopState, Seq<EffectView>) {
        if self.resources.contains_key(id) {
            (self.left(id), seq![EffectView::Drop(self.resources[id])])
        } else {
            (self, Seq::empty())
        }
    }

    /// The loop without the next request.
    pub open spec fn received(self) -> LoopState {
        LoopState { handle: self.handle.received(), ..self }
    }

    /// Whether a request can be served: a tcp request needs its stream or
    /// listener, and a new resource needs room.
    pub open spec fn servable(self, request: RequestView) -> bool {
        &&& request.resource() is Some ==> self.resources.len() < MAX_RESOURCES
        &&& match request {
            RequestView::TcpWrite(shared, _, _) | RequestView::TcpRead(shared, _)
            | RequestView::TcpClose(shared, _) => self.holds(
                self.id_of(shared),
                ResourceKind::TcpStream,
            ),
            RequestView::TcpListenStop(shared, _) => self.holds(
                self.id_of(shared),
                ResourceKind::TcpListener,
            ),
            RequestView::TaskSpawn(_, _) => self.pool.pending < usize::MAX,
            _ => true,
        }
    }

    /// What serving a request leads to. A resource that the request adds gets
    /// the identifier `new`.
    pub open spec fn served(self, request: RequestView, new: ResourceId) -> (
        LoopState,
        Seq<EffectView>,
    ) {
        match request {
            RequestView::TimerStart(timer) => (
                LoopState {
                    timers: scheduled(self.timers, (self.now + timer.delay) as u128, new),
                    ..self.joined(new, ResourceView::Timer(timer))
                },
                Seq::empty(),
            ),
            RequestView::TimerCancel(shared) => self.dropped(shared),
            RequestView::TcpInit(stream) => (
                self.joined(new, ResourceView::TcpStream(stream)),
                seq![
                    EffectView::Plain(
                        Effect::Register(stream.socket, token_of(new), Interest::Writable),
                    ),
                ],
            ),
            RequestView::TcpWrite(shared, data, callback) => {
                let id = self.id_of(shared);
                let stream = self.resources[id]->TcpStream_0;
                (
                    self.changed(
                        id,
                        ResourceView::TcpStream(
                            StreamView {
                                write_queue: stream.write_queue.push((data, callback)),
                                ..stream
                            },
                        ),
                    ),
                    seq![
                        EffectView::Plain(
                            Effect::Reregister(stream.socket, token_of(id), Interest::Both),
                        ),
                    ],
                )
            },
            RequestView::TcpRead(shared, callback) => {
                let id = self.id_of(shared);
                let stream = self.resources[id]->TcpStream_0;
                (
                    self.changed(
                        id,
                        ResourceView::TcpStream(StreamView { on_read: Some(callback), ..stream }),
                    ),
                    forgotten(stream.on_read).push(
                        EffectView::Plain(
                            Effect::Reregister(stream.socket, token_of(id), stream.read_interest()),
                        ),
                    ),
                )
            },
            RequestView::TcpShutdown(shared, callback) => {
                let id = self.id_of(shared);
                if self.resources.contains_key(id) {
                    let (resource, effects) = destroyed(self.resources[id]);
                    (
                        self.changed(id, resource),
                        effects.push(EffectView::Plain(Effect::CloseCallback(callback))),
                    )
                } else {
                    (self, seq![EffectView::Plain(Effect::Release(callback))])
                }
            },
            RequestView::TcpClose(shared, callback) => {
                let id = self.id_of(shared);
                let stream = self.resources[id]->TcpStream_0;
                (
                    LoopState {
                        close_queue: self.close_queue.push(id),
                        ..self.changed(
                            id,
                            ResourceView::TcpStream(
                                StreamView { on_close: Some(callback), ..stream },
                            ),
                        )
                    },
                    forgotten(stream.on_close),
                )
            },
            RequestView::TcpListen(listener) => (
                self.joined(new, ResourceView::TcpListener(listener)),
                seq![
                    EffectView::Plain(
                        Effect::Register(listener.socket, token_of(new), Interest::Readable),
                    ),
                ],
            ),
            RequestView::TcpListenStop(shared, callback) => {
                let id = self.id_of(shared);
                let listener = self.resources[id]->TcpListener_0;
                (
                    LoopState {
                        close_queue: self.close_queue.push(id),
                        ..self.changed(
                            id,
                            ResourceView::TcpListener(
                                TcpListener { on_close: Some(callback), ..listener },
                            ),
                        )
                    },
                    forgotten(listener.on_close),
                )
            },
            RequestView::TaskSpawn(task, work) => (
                LoopState {
                    pool: ThreadPool { pending: (self.pool.pending + 1) as usize, ..self.pool },
                    ..self.joined(new, ResourceView::Task(task))
                },
                seq![EffectView::Plain(Effect::SpawnWork(new, work, task.cancelation))],
            ),
            RequestView::TaskCancel(shared) => self.dropped(shared),
            RequestView::CheckInit(check) => (
                LoopState {
                    check_queue: self.check_queue.push(new),
                    ..self.joined(new, ResourceView::Check(check))
                },
                Seq::empty(),
            ),
            RequestView::CheckRemove(shared) => {
                let (after, effects) = self.dropped(shared);
                let id = self.id_of(shared);
                (
                    LoopState {
                        check_queue: self.check_queue.filter(|other: ResourceId| other != id),
                        ..after
                    },
                    effects,
                )
            },
            RequestView::FsEventStart(fs_event) => (
                self.joined(new, ResourceView::FsEvent(FsEvent { watching: true, ..fs_event })),
                seq![EffectView::Plain(Effect::StartWatch(new, fs_event.path, fs_event.mode))],
            ),
            RequestView::FsEventStop(shared) => self.dropped(shared),
            RequestView::FsWatcherStart(watcher) => (
                self.joined(new, ResourceView::FsWatcher(FsWatcher { watching: true, ..watcher })),
                seq![EffectView::Plain(Effect::StartWatch(new, watcher.path, watcher.mode))],
            ),
            RequestView::FsWatcherStop(shared) => self.dropped(shared),
            RequestView::SignalStart(number, signal) => (
                LoopState { signals: listening(self.signals, number, signal), ..self },
                seq![EffectView::Plain(Effect::WatchSignal(number))],
            ),
            RequestView::SignalStop(id) => (
                LoopState { signals: unlistened(self.signals, id).0, ..self },
                plain(unlistened(self.signals, id).1),
            ),
            RequestView::TtyReadStart(reader) => (
                LoopState {
                    ttys: self.ttys.insert(reader.tty, new),
                    ..self.joined(new, ResourceView::TtyReader(reader))
                },
                seq![EffectView::Plain(Effect::StartTtyRead(new, reader.stop))],
            ),
            RequestView::TtyClose(tty) => if self.holds(
                self.reader_of(tty),
                ResourceKind::TtyReader,
            ) {
                self.discarded(self.reader_of(tty))
            } else {
                (self, Seq::empty())
            },
        }
    }

    /// What serving the next `count` requests leads to, where the request that
    /// is served as number `i` adds a resource under `ids[i]`, if it adds one.
    pub open spec fn served_all(self, count: nat, ids: Seq<ResourceId>) -> (
        LoopState,
        Seq<EffectView>,
    )
        decreases count,
    {
        if count == 0 {
            (self, Seq::empty())
        } else {
            let (before, effects) = self.served_all((count - 1) as nat, ids);
            let (after, more) = before.received().served(
                before.handle.requests[0],
                ids[count - 1],
            );
            (after, effects + more)
        }
    }

    /// Whether the next `count` requests can be served one after the other, and
    /// `ids` are identifiers that the resources they add can have.
    pub open spec fn all_servable(self, count: nat, ids: Seq<ResourceId>) -> bool
        decreases count,
    {
        count == 0 || {
            let before = self.served_all((count - 1) as nat, ids).0;
            &&& self.all_servable((count - 1) as nat, ids)
            &&& before.handle.requests.len() > 0
            &&& before.servable(before.handle.requests[0])
            &&& before.handle.requests[0].resource() is Some ==> before.available(ids[count - 1])
        }
    }

    /// Whether draining the request queue can lead to `after`, with the given
    /// effects, where `count` requests are served and `ids` are the identifiers
    /// of what they add. The queue is served in order up to its end, or up to a
    /// request that cannot be served.
    pub open spec fn drains_by(
        self,
        count: nat,
        ids: Seq<ResourceId>,
        after: LoopState,
        effects: Seq<EffectView>,
        stuck: bool,
    ) -> bool {
        let (served, produced) = self.served_all(count, ids);
        &&& ids.len() == count
        &&& self.all_servable(count, ids)
        &&& effects == produced
        &&& if stuck {
            &&& count < self.handle.requests.len()
            &&& served.handle.requests.len() > 0
            &&& !served.servable(served.handle.requests[0])
            &&& after == served
        } else {
            &&& count == self.handle.requests.len()
            &&& after == served
        }
    }

    /// Whether draining the request queue can lead to `after`.
    pub open spec fn drains_to(
        self,
        after: LoopState,
        effects: Seq<EffectView>,
        stuck: bool,
    ) -> bool {
        exists|count: nat, ids: Seq<ResourceId>| #[trigger]
            self.drains_by(count, ids, after, effects, stuck)
    }

    /// Whether a new resource can have the identifier.
    pub open spec fn available(self, id: ResourceId) -> bool {
        &&& is_key(id)
        &&& id != NULL_ID
        &&& !self.resources.contains_key(id)
        &&& self.keys_unique() ==> !self.issued.contains(id)
    }

    /// Whether so few identifiers were given out that none was given out twice,
    /// and the next one will not be either.
    pub open spec fn keys_unique(self) -> bool {
        self.issued.len() < KEY_LIMIT
    }

    /// What the expiry of a timer leads to: its callback runs, and it is
    /// scheduled anew or leaves the loop. A canceled timer is ignored.
    pub open spec fn fired(self, id: ResourceId) -> (LoopState, Seq<EffectView>) {
        if self.holds(id, ResourceKind::Timer) {
            let timer = self.resources[id]->Timer_0;
            let ran = seq![EffectView::Plain(Effect::TimerCallback(timer.callback))];
            match timer.kind {
                TimerKind::Interval => (
                    LoopState {
                        timers: scheduled(self.timers, (self.now + timer.delay) as u128, id),
                        ..self
                    },
                    ran,
                ),
                TimerKind::Timeout => (
                    self.left(id),
                    ran.push(EffectView::Drop(self.resources[id])),
                ),
            }
        } else {
            (self, Seq::empty())
        }
    }

    /// What the expiry of several timers leads to.
    pub open spec fn fired_all(self, ids: Seq<ResourceId>) -> (LoopState, Seq<EffectView>)
        decreases ids.len(),
    {
        if ids.len() == 0 {
            (self, Seq::empty())
        } else {
            let (before, effects) = self.fired_all(ids.drop_last());
            let (after, more) = before.fired(ids.last());
            (after, effects + more)
        }
    }

    /// The callback of a check resource.
    pub open spec fn checked(self, id: ResourceId) -> Seq<EffectView> {
        if self.holds(id, ResourceKind::Check) {
            let check = self.resources[id]->Check_0;
            seq![
                EffectView::Plain(
                    Effect::CheckCallback(check.callback, CheckHandle { id: check.id }),
                ),
            ]
        } else {
            Seq::empty()
        }
    }

    /// The callbacks of several check resources.
    pub open spec fn checked_all(self, ids: Seq<ResourceId>) -> Seq<EffectView>
        decreases ids.len(),
    {
        if ids.len() == 0 {
            Seq::empty()
        } else {
            self.checked_all(ids.drop_last()) + self.checked(ids.last())
        }
    }

    /// What the closing of a resource leads to.
    pub open spec fn closed(self, id: ResourceId) -> (LoopState, Seq<EffectView>) {
        if self.resources.contains_key(id) {
            let (resource, effects) = destroyed(self.resources[id]);
            (self.left(id), effects.push(EffectView::Drop(resource)))
        } else {
            (self, Seq::empty())
        }
    }

    /// What the closing of several resources leads to.
    pub open spec fn closed_all(self, ids: Seq<ResourceId>) -> (LoopState, Seq<EffectView>)
        decreases ids.len(),
    {
        if ids.len() == 0 {
            (self, Seq::empty())
        } else {
            let (before, effects) = self.closed_all(ids.drop_last());
            let (after, more) = before.closed(ids.last());
            (after, effects + more)
        }
    }
}

impl LoopState {
    /// What the timers phase leads to: every timer whose instant has passed
    /// fires, the earliest first.
    pub open spec fn timers_run(self) -> (LoopState, Seq<EffectView>) {
        LoopState { timers: pending_from(self.timers, self.now), ..self }.fired_all(
            expired_before(self.timers, self.now),
        )
    }

    /// What the close phase leads to.
    pub open spec fn closes_run(self) -> (LoopState, Seq<EffectView>) {
        LoopState { close_queue: Seq::empty(), ..self }.closed_all(self.close_queue)
    }

    /// How long the poll phase should block for events; `None` means until
    /// there are some. It does not block where there is something to do anyway,
    /// and blocks no longer than until the next timer.
    pub open spec fn poll_timeout(self, mode: RunMode) -> Option<Nanos> {
        if mode == RunMode::NoWait || !self.pending() || self.check_queue.len() > 0
            || self.close_queue.len() > 0 {
            Some(0)
        } else if exists|at: Nanos| is_earliest(self.timers, at) {
            let at = choose|at: Nanos| is_earliest(self.timers, at);
            Some(
                if at > self.now {
                    (at - self.now) as u128
                } else {
                    0
                },
            )
        } else {
            None
        }
    }

    /// The phase that follows.
    pub open spec fn next_phase(self, mode: RunMode, phase: Phase) -> Phase {
        match phase {
            Phase::Requests => Phase::Timers,
            Phase::Timers => Phase::Poll(self.poll_timeout(mode)),
            Phase::Poll(_) => Phase::Check,
            Phase::Check => Phase::Close,
            Phase::Close => if mode == RunMode::Default && self.pending() {
                Phase::Requests
            } else {
                Phase::Done
            },
            Phase::Done => Phase::Done,
        }
    }

    /// Whether the loop can take an event.
    pub open spec fn accepts(self, event: Event) -> bool {
        match event {
            Event::Network(TcpEventKind::Read(token)) => self.holds(
                id_of_token(token),
                ResourceKind::TcpStream,
            ) || self.holds(id_of_token(token), ResourceKind::TcpListener),
            Event::Network(TcpEventKind::Write(token)) => self.holds(
                id_of_token(token),
                ResourceKind::TcpStream,
            ),
            Event::ThreadPool(id) => self.pool.pending > 0 && (self.resources.contains_key(id)
                ==> self.holds(id, ResourceKind::Task)),
            _ => true,
        }
    }

    /// What a network event is for: a stream to read from or write to, or a
    /// listener to accept connections of.
    pub open spec fn network_target(self, event: TcpEventKind) -> NetworkTarget {
        match event {
            TcpEventKind::Read(token) => if self.holds(
                id_of_token(token),
                ResourceKind::TcpStream,
            ) {
                NetworkTarget::Read(id_of_token(token))
            } else {
                NetworkTarget::Accept(id_of_token(token))
            },
            TcpEventKind::Write(token) => NetworkTarget::Write(id_of_token(token)),
        }
    }

    /// A worker of the thread-pool is done with a task.
    pub open spec fn settled(self) -> LoopState {
        LoopState {
            pool: ThreadPool { pending: (self.pool.pending - 1) as usize, ..self.pool },
            ..self
        }
    }

    /// What a finished task leads to: its callback runs, and it leaves the loop.
    /// A canceled task is ignored.
    pub open spec fn finished(self, id: ResourceId) -> (LoopState, Seq<EffectView>) {
        if self.holds(id, ResourceKind::Task) {
            let task = self.resources[id]->Task_0;
            let gone = EffectView::Drop(ResourceView::Task(Task { on_complete: None, ..task }));
            (
                self.settled().left(id),
                match task.on_complete {
                    Some(callback) => seq![
                        EffectView::Plain(Effect::TaskCallback(callback)),
                        gone,
                    ],
                    None => seq![gone],
                },
            )
        } else {
            (self.settled(), Seq::empty())
        }
    }

    /// The callback of a file-system event resource.
    pub open spec fn fs_event_seen(self, id: ResourceId) -> Seq<EffectView> {
        if self.holds(id, ResourceKind::FsEvent) {
            let fs_event = self.resources[id]->FsEvent_0;
            seq![
                EffectView::Plain(
                    Effect::FsEventCallback(fs_event.callback, FsEventHandle { id: fs_event.id }),
                ),
            ]
        } else {
            Seq::empty()
        }
    }

    /// The callback of a file-system watcher.
    pub open spec fn watch_seen(self, id: ResourceId) -> Seq<EffectView> {
        if self.holds(id, ResourceKind::FsWatcher) {
            let watcher = self.resources[id]->FsWatcher_0;
            seq![
                EffectView::Plain(
                    Effect::FsWatcherCallback(watcher.callback, FsWatcherHandle { id: watcher.id }),
                ),
            ]
        } else {
            Seq::empty()
        }
    }

    /// The callback of a terminal reader.
    pub open spec fn input_seen(self, id: ResourceId) -> Seq<EffectView> {
        if self.holds(id, ResourceKind::TtyReader) {
            let reader = self.resources[id]->TtyReader_0;
            seq![
                EffectView::Plain(
                    Effect::TtyCallback(
                        reader.on_read,
                        TtyHandle { id: reader.tty, stop: Some(reader.stop) },
                    ),
                ),
            ]
        } else {
            Seq::empty()
        }
    }

    /// What an event leads to that needs no more than a look at the resources.
    /// Network events and signals take further steps.
    pub open spec fn dispatched(self, event: Event) -> (LoopState, Seq<EffectView>) {
        match event {
            Event::ThreadPool(id) => self.finished(id),
            Event::Watch(id) => (self, self.fs_event_seen(id)),
            Event::FsWatch(id) => (self, self.watch_seen(id)),
            Event::TtyRead(id) => (self, self.input_seen(id)),
            Event::Network(_) | Event::Signal => (self, Seq::empty()),
        }
    }

    /// A resource waits to be closed, or not.
    pub open spec fn close_queued(self, id: ResourceId, closes: bool) -> LoopState {
        LoopState {
            close_queue: if closes {
                self.close_queue.push(id)
            } else {
                self.close_queue
            },
            ..self
        }
    }

    /// What a series of reads from the socket of a stream leads to.
    pub open spec fn stream_read(self, id: ResourceId, progress: ReadView) -> (
        LoopState,
        Seq<EffectView>,
    ) {
        let stream = self.resources[id]->TcpStream_0;
        (self.close_queued(id, read_closes(stream, progress)), read_effects(stream, progress))
    }

    /// What the start of writing to the socket of a stream leads to, and whether
    /// to go on.
    pub open spec fn stream_write_start(self, id: ResourceId, status: SocketStatus) -> (
        LoopState,
        Seq<EffectView>,
        bool,
    ) {
        let start = write_start(self.resources[id]->TcpStream_0, id, status);
        (
            self.changed(id, ResourceView::TcpStream(start.stream)).close_queued(id, start.closes),
            start.effects,
            start.proceeds,
        )
    }

    /// What one write to the socket of a stream leads to, and whether to go on.
    pub open spec fn stream_write(self, id: ResourceId, outcome: WriteOutcome) -> (
        LoopState,
        Seq<EffectView>,
        bool,
    ) {
        let (stream, effects, more) = write_after(self.resources[id]->TcpStream_0, outcome);
        (self.changed(id, ResourceView::TcpStream(stream)), effects, more)
    }

    /// What one attempt to accept a connection leads to, and whether to try
    /// again.
    pub open spec fn connection_accepted(self, id: ResourceId, outcome: AcceptOutcome) -> (
        LoopState,
        Seq<EffectView>,
        bool,
    ) {
        let listener = self.resources[id]->TcpListener_0;
        let shared = self.handle.next_id;
        match outcome {
            AcceptOutcome::Accepted(socket) => (
                LoopState {
                    accepted: self.accepted.push(accepted_stream(shared, socket)),
                    handle: self.handle.referenced(),
                    ..self
                },
                seq![
                    EffectView::Plain(
                        Effect::AcceptCallback(
                            listener.on_connection,
                            TcpListenerHandle { id: listener.id },
                            Ok(TcpStreamHandle { id: shared, socket }),
                        ),
                    ),
                ],
                true,
            ),
            AcceptOutcome::WouldBlock => (self, Seq::empty(), false),
            AcceptOutcome::Failed(error) => (
                self,
                seq![
                    EffectView::Plain(
                        Effect::AcceptCallback(
                            listener.on_connection,
                            TcpListenerHandle { id: listener.id },
                            Err(Failure::Reported(error)),
                        ),
                    ),
                ],
                false,
            ),
        }
    }

    /// The streams of the new connections join the loop, under the given
    /// identifiers, and are polled for reading.
    pub open spec fn clients_joined(self, ids: Seq<ResourceId>) -> (LoopState, Seq<EffectView>)
        decreases ids.len(),
    {
        if ids.len() == 0 {
            (self, Seq::empty())
        } else {
            let (before, effects) = self.clients_joined(ids.drop_last());
            let stream = before.accepted[0];
            (
                LoopState {
                    accepted: before.accepted.drop_first(),
                    ..before.joined(ids.last(), ResourceView::TcpStream(stream))
                },
                effects.push(
                    EffectView::Plain(
                        Effect::Register(stream.socket, token_of(ids.last()), Interest::Readable),
                    ),
                ),
            )
        }
    }

    /// Whether the streams of the new connections can have the identifiers.
    pub open spec fn clients_available(self, ids: Seq<ResourceId>) -> bool
        decreases ids.len(),
    {
        ids.len() == 0 || {
            &&& self.clients_available(ids.drop_last())
            &&& self.clients_joined(ids.drop_last()).0.available(ids.last())
        }
    }
}

/// One more listener for a signal.
pub open spec fn listening(handlers: Handlers, number: i32, signal: Signal) -> Handlers {
    handlers.insert(
        number,
        (if handlers.contains_key(number) {
            handlers[number]
        } else {
            Seq::empty()
        }).push(signal),
    )
}

impl LoopState {
    /// Every resource is linked to its reference, and to no other.
    pub open spec fn links_sound(self) -> bool {
        &&& forall|id: ResourceId| #[trigger]
            self.resources.contains_key(id) ==> self.links.contains_key(
                self.resources[id].shared_id(),
            ) && self.links[self.resources[id].shared_id()] == id
        &&& forall|shared: SharedId| #[trigger]
            self.links.contains_key(shared) ==> self.resources.contains_key(self.links[shared])
                && self.resources[self.links[shared]].shared_id() == shared
    }

    /// A reference that is made up and linked to nothing.
    pub open spec fn unlinked(self, shared: SharedId) -> bool {
        &&& shared < self.handle.next_id
        &&& !self.links.contains_key(shared)
        &&& forall|number: i32| !listens(self.signals, number, shared)
    }

    /// A reference that nothing has and nothing waits to get.
    pub open spec fn fresh(self, shared: SharedId) -> bool {
        &&& self.unlinked(shared)
        &&& forall|i: int|
            0 <= i < self.handle.requests.len() ==> (#[trigger] self.handle.requests[i]).starts()
                != Some(shared)
        &&& forall|i: int|
            0 <= i < self.accepted.len() ==> (#[trigger] self.accepted[i]).id != shared
    }

    /// No reference is given to two things.
    pub open spec fn references_sound(self) -> bool {
        &&& references_unique(self.signals)
        &&& forall|shared: SharedId| #[trigger]
            self.links.contains_key(shared) ==> shared < self.handle.next_id
        &&& forall|number: i32, shared: SharedId| #[trigger]
            listens(self.signals, number, shared) ==> shared < self.handle.next_id
                && !self.links.contains_key(shared)
        &&& forall|i: int|
            0 <= i < self.handle.requests.len() && (
            #[trigger] self.handle.requests[i]).starts() is Some ==> self.unlinked(
                self.handle.requests[i].starts()->0,
            )
        &&& forall|i: int, j: int|
            0 <= i < j < self.handle.requests.len() && (
            #[trigger] self.handle.requests[i]).starts() is Some
                ==> self.handle.requests[i].starts()
                != (#[trigger] self.handle.requests[j]).starts()
        &&& forall|i: int|
            0 <= i < self.accepted.len() ==> self.unlinked((#[trigger] self.accepted[i]).id)
        &&& forall|i: int, j: int|
            0 <= i < j < self.accepted.len() ==> (#[trigger] self.accepted[i]).id != (
            #[trigger] self.accepted[j]).id
        &&& forall|i: int, j: int|
            0 <= i < self.handle.requests.len() && 0 <= j < self.accepted.len() ==> (
            #[trigger] self.handle.requests[i]).starts() != Some((#[trigger] self.accepted[j]).id)
    }

    /// No timer reaches beyond the end of time.
    pub open spec fn times_sound(self) -> bool {
        &&& self.now <= MAX_SPAN
        &&& forall|id: ResourceId|
            self.holds(id, ResourceKind::Timer) ==> (
            #[trigger] self.resources[id])->Timer_0.delay <= MAX_SPAN
        &&& forall|i: int|
            0 <= i < self.handle.requests.len() && (
            #[trigger] self.handle.requests[i]) is TimerStart
                ==> self.handle.requests[i]->TimerStart_0.delay <= MAX_SPAN
    }

    /// Every timer is scheduled, and scheduled once. No instant is without timers.
    pub open spec fn timers_sound(self) -> bool {
        &&& self.timers.dom().finite()
        &&& forall|at: Nanos| #[trigger]
            self.timers.contains_key(at) ==> self.timers[at].len() > 0
        &&& forall|id: ResourceId| #[trigger]
            self.holds(id, ResourceKind::Timer) ==> is_scheduled(self.timers, id) && (
            self.keys_unique() ==> is_alone(self.timers, id))
    }

    /// Whatever a resource or a scheduled timer is known by was given out.
    pub open spec fn account_sound(self) -> bool {
        &&& issued_sound(self.issued)
        &&& forall|id: ResourceId| #[trigger]
            self.resources.contains_key(id) ==> self.issued.contains(id)
        &&& forall|id: ResourceId| #[trigger]
            is_scheduled(self.timers, id) ==> self.issued.contains(id)
    }

    /// The check queue holds every check resource, and each once. What it holds
    /// besides is gone.
    pub open spec fn checks_sound(self) -> bool {
        &&& forall|id: ResourceId| #[trigger]
            self.holds(id, ResourceKind::Check) ==> self.check_queue.contains(id)
        &&& forall|i: int|
            0 <= i < self.check_queue.len() ==> self.issued.contains(#[trigger] self.check_queue[i])
        &&& self.keys_unique() ==> self.check_queue.no_duplicates() && forall|i: int|
            0 <= i < self.check_queue.len() && self.resources.contains_key(
                #[trigger] self.check_queue[i],
            ) ==> self.holds(self.check_queue[i], ResourceKind::Check)
    }

    /// The close queue holds streams and listeners. What it holds besides is gone.
    pub open spec fn closes_sound(self) -> bool {
        &&& forall|i: int|
            0 <= i < self.close_queue.len() ==> self.issued.contains(#[trigger] self.close_queue[i])
        &&& self.keys_unique() ==> forall|i: int|
            0 <= i < self.close_queue.len() && self.resources.contains_key(
                #[trigger] self.close_queue[i],
            ) ==> self.holds(self.close_queue[i], ResourceKind::TcpStream) || self.holds(
                self.close_queue[i],
                ResourceKind::TcpListener,
            )
    }

    /// What holds of an event-loop at all times.
    pub open spec fn wf(self) -> bool {
        &&& keys_sound(self.resources)
        &&& self.account_sound()
        &&& self.links_sound()
        &&& self.references_sound()
        &&& self.times_sound()
        &&& self.timers_sound()
        &&& self.checks_sound()
        &&& self.closes_sound()
        &&& self.handle.queue_empty <==> self.handle.requests.len() == 0
    }

    /// Whether a request that is off the queue may be served.
    pub open spec fn admits(self, request: RequestView) -> bool {
        &&& self.servable(request)
        &&& request.starts() is Some ==> self.fresh(request.starts()->0)
        &&& request is TimerStart ==> request->TimerStart_0.delay <= MAX_SPAN
    }
}

} // verus!
