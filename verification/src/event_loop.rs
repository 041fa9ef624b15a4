//! The event-loop.
//!
//! The loop decides, its driver acts: every call returns the effects that the
//! driver performs, in order. Callbacks run between calls and reach the loop
//! only through its [`LoopHandle`].

pub mod answers;
pub mod calls;
pub mod due;
pub mod handle;
pub mod laws;
pub(crate) mod lemmas;
mod network;
pub mod phases;
pub mod reactions;
pub mod requests;
pub mod runs;
pub mod stale;
pub mod state;
pub mod tasks;
pub mod waiting;

use crate::check::Check;
use crate::event_loop::lemmas::lemma_handle_used;
use crate::event_loop::state::LoopState;
use crate::fs::FsWatcher;
use crate::fs_event::FsEvent;
use crate::resource::{CallbackId, ResourceId, ResourceMap, SharedId, WorkId};
use crate::signals::{OsSignals, Signal, SignalNum};
use crate::task::Task;
use crate::tcp_listener::TcpListener;
use crate::tcp_stream::{StreamView, TcpEventKind, TcpStream};
use crate::thread_pool::ThreadPool;
use crate::timers::{Nanos, Timer, TimersCollection, MAX_SPAN};
use crate::tty::TtyReader;
use std::collections::{HashMap, VecDeque};
use vstd::prelude::*;

pub use handle::LoopHandle;

verus! {

/// A request to the event-loop.
#[derive(Debug, PartialEq, Eq)]
pub enum Request {
    TimerStart(Timer),
    TimerCancel(SharedId),
    TcpInit(TcpStream),
    TcpWrite(SharedId, Vec<u8>, CallbackId),
    TcpRead(SharedId, CallbackId),
    TcpShutdown(SharedId, CallbackId),
    TcpClose(SharedId, CallbackId),
    TcpListen(TcpListener),
    TcpListenStop(SharedId, CallbackId),
    TaskSpawn(Task, WorkId),
    TaskCancel(SharedId),
    CheckInit(Check),
    CheckRemove(SharedId),
    FsEventStart(FsEvent),
    FsEventStop(SharedId),
    FsWatcherStart(FsWatcher),
    FsWatcherStop(SharedId),
    SignalStart(SignalNum, Signal),
    SignalStop(u64),
    TtyReadStart(TtyReader),
    TtyClose(SharedId),
}

/// What a [`Request`] holds.
pub enum RequestView {
    TimerStart(Timer),
    TimerCancel(SharedId),
    TcpInit(StreamView),
    TcpWrite(SharedId, Seq<u8>, CallbackId),
    TcpRead(SharedId, CallbackId),
    TcpShutdown(SharedId, CallbackId),
    TcpClose(SharedId, CallbackId),
    TcpListen(TcpListener),
    TcpListenStop(SharedId, CallbackId),
    TaskSpawn(Task, WorkId),
    TaskCancel(SharedId),
    CheckInit(Check),
    CheckRemove(SharedId),
    FsEventStart(FsEvent),
    FsEventStop(SharedId),
    FsWatcherStart(FsWatcher),
    FsWatcherStop(SharedId),
    SignalStart(i32, Signal),
    SignalStop(u64),
    TtyReadStart(TtyReader),
    TtyClose(SharedId),
}

impl View for Request {
    type V = RequestView;

    open spec fn view(&self) -> RequestView {
        match *self {
            Request::TimerStart(timer) => RequestView::TimerStart(timer),
            Request::TimerCancel(id) => RequestView::TimerCancel(id),
            Request::TcpInit(stream) => RequestView::TcpInit(stream@),
            Request::TcpWrite(id, data, callback) => RequestView::TcpWrite(id, data@, callback),
            Request::TcpRead(id, callback) => RequestView::TcpRead(id, callback),
            Request::TcpShutdown(id, callback) => RequestView::TcpShutdown(id, callback),
            Request::TcpClose(id, callback) => RequestView::TcpClose(id, callback),
            Request::TcpListen(listener) => RequestView::TcpListen(listener),
            Request::TcpListenStop(id, callback) => RequestView::TcpListenStop(id, callback),
            Request::TaskSpawn(task, work) => RequestView::TaskSpawn(task, work),
            Request::TaskCancel(id) => RequestView::TaskCancel(id),
            Request::CheckInit(check) => RequestView::CheckInit(check),
            Request::CheckRemove(id) => RequestView::CheckRemove(id),
            Request::FsEventStart(fs_event) => RequestView::FsEventStart(fs_event),
            Request::FsEventStop(id) => RequestView::FsEventStop(id),
            Request::FsWatcherStart(watcher) => RequestView::FsWatcherStart(watcher),
            Request::FsWatcherStop(id) => RequestView::FsWatcherStop(id),
            Request::SignalStart(signum, signal) => RequestView::SignalStart(signum@, signal),
            Request::SignalStop(id) => RequestView::SignalStop(id),
            Request::TtyReadStart(reader) => RequestView::TtyReadStart(reader),
            Request::TtyClose(id) => RequestView::TtyClose(id),
        }
    }
}

/// What a [`LoopHandle`] holds.
#[verifier::ext_equal]
pub struct HandleView {
    /// The requests that have not been served yet.
    pub requests: Seq<RequestView>,
    /// Whether no request waits to be served.
    pub queue_empty: bool,
    /// The next reference to make up.
    pub next_id: SharedId,
}

impl HandleView {
    /// Nothing scheduled.
    pub open spec fn start() -> HandleView {
        HandleView { requests: Seq::empty(), queue_empty: true, next_id: 0 }
    }

    /// The handle after one more reference has been made up.
    pub open spec fn referenced(self) -> HandleView {
        HandleView { next_id: (self.next_id + 1) as u64, ..self }
    }

    /// Whether `later` comes of this handle by making up references and making
    /// requests: what they start has a reference that was made up since, and
    /// none has that of another.
    pub open spec fn used(self, later: HandleView) -> bool {
        let count = self.requests.len();
        &&& self.next_id <= later.next_id
        &&& count <= later.requests.len()
        &&& later.requests.take(count as int) == self.requests
        &&& later.queue_empty == (self.queue_empty && later.requests.len() == count)
        &&& forall|i: int|
            count <= i < later.requests.len() && (
            #[trigger] later.requests[i]).starts() is Some ==> self.next_id
                <= later.requests[i].starts()->0 < later.next_id
        &&& forall|i: int, j: int|
            count <= i < j < later.requests.len() && (
            #[trigger] later.requests[i]).starts() is Some ==> later.requests[i].starts() != (
            #[trigger] later.requests[j]).starts()
        &&& forall|i: int|
            count <= i < later.requests.len() && (#[trigger] later.requests[i]) is TimerStart
                ==> later.requests[i]->TimerStart_0.delay <= MAX_SPAN
    }

    /// The handle without the next request.
    pub open spec fn received(self) -> HandleView {
        HandleView {
            requests: self.requests.drop_first(),
            queue_empty: self.requests.len() == 1,
            ..self
        }
    }

    /// The handle after one more request.
    pub open spec fn queued(self, request: RequestView) -> HandleView {
        HandleView { requests: self.requests.push(request), queue_empty: false, ..self }
    }
}

/// How the event-loop runs.
#[derive(Debug, Clone, Copy, PartialEq, Eq, Structural)]
pub enum RunMode {
    /// Runs the event loop until there are no resources.
    Default,
    /// Polls for I/O events once.
    Once,
    /// Does not block if there are no pending events.
    NoWait,
}

/// Where an iteration of the loop stands.
#[derive(Debug, Clone, Copy, PartialEq, Eq, Structural)]
pub enum Phase {
    /// The clock is read and the requests are served.
    Requests,
    /// The expired timers fire.
    Timers,
    /// I/O events are waited for, no longer than the given time, and processed.
    Poll(Option<Nanos>),
    /// The check callbacks run.
    Check,
    /// The dying resources are cleaned up.
    Close,
    /// The loop has come to its end.
    Done,
}

/// What a driver has just done for the loop.
#[derive(Debug, Clone, Copy, PartialEq, Eq, Structural)]
pub enum Turn {
    /// What a phase of the iteration needs.
    Phase(Phase),
    /// The processing of one event of the poll phase.
    Event,
}

impl Turn {
    /// Whether the request queue is drained next: at the start of an iteration,
    /// and wherever callbacks have run that might schedule additional work, but
    /// for those of the timers, whose requests wait for the next such place.
    pub open spec fn serves(self) -> bool {
        match self {
            Turn::Phase(phase) => phase is Requests || phase is Check || phase is Close,
            Turn::Event => true,
        }
    }
}

/// Something that the poll phase has to react to.
#[derive(Debug, Clone, Copy, PartialEq, Eq, Structural)]
pub enum Event {
    /// A network operation is available.
    Network(TcpEventKind),
    /// A thread-pool task has been completed.
    ThreadPool(ResourceId),
    /// A file-system change has been detected for a file-system event resource.
    Watch(ResourceId),
    /// A file-system change has been detected for a file-system watcher.
    FsWatch(ResourceId),
    /// The terminal has given input.
    TtyRead(ResourceId),
    /// Signals are pending.
    Signal,
}

/// What polling has found out about a token.
#[derive(Debug, Clone, Copy, PartialEq, Eq, Structural)]
pub struct Readiness {
    pub token: usize,
    pub readable: bool,
    pub read_closed: bool,
    pub writable: bool,
}

/// What a network event is for.
#[derive(Debug, Clone, Copy, PartialEq, Eq, Structural)]
pub enum NetworkTarget {
    /// A stream whose socket is to be read from.
    Read(ResourceId),
    /// A listener whose connections are to be accepted.
    Accept(ResourceId),
    /// A stream whose socket is to be written to.
    Write(ResourceId),
}

/// The event-loop.
pub struct EventLoop {
    current_time: Nanos,
    resources: ResourceMap,
    links: HashMap<SharedId, ResourceId>,
    ttys: HashMap<SharedId, ResourceId>,
    timers: TimersCollection<ResourceId>,
    check_queue: Vec<ResourceId>,
    close_queue: Vec<ResourceId>,
    accepted: VecDeque<TcpStream>,
    thread_pool: ThreadPool,
    signals: OsSignals,
    handle: LoopHandle,
}

impl View for EventLoop {
    type V = LoopState;

    closed spec fn view(&self) -> LoopState {
        LoopState {
            now: self.current_time,
            resources: self.resources@,
            issued: self.resources.issued(),
            links: self.links@,
            ttys: self.ttys@,
            timers: self.timers@,
            check_queue: self.check_queue@,
            close_queue: self.close_queue@,
            accepted: self.accepted@.map_values(|stream: TcpStream| stream@),
            pool: self.thread_pool,
            signals: self.signals@,
            handle: self.handle@,
        }
    }
}

impl EventLoop {
    /// Creates a new event-loop instance.
    pub fn new(num_threads: usize) -> (event_loop: EventLoop)
        requires
            num_threads > 0,
        ensures
            event_loop@ == LoopState::start(num_threads),
            event_loop@.wf(),
    {
        let event_loop = EventLoop {
            current_time: 0,
            resources: ResourceMap::new(),
            links: HashMap::new(),
            ttys: HashMap::new(),
            timers: TimersCollection::new(),
            check_queue: Vec::new(),
            close_queue: Vec::new(),
            accepted: VecDeque::new(),
            thread_pool: ThreadPool::new(num_threads),
            signals: OsSignals::new(),
            handle: LoopHandle::new(),
        };
        assert(event_loop@ =~= LoopState::start(num_threads));
        event_loop
    }

    /// Returns true if there is pending work still ongoing.
    pub fn has_pending_events(&self) -> (pending: bool)
        requires
            self@.wf(),
        ensures
            pending == self@.pending(),
    {
        !self.resources.is_empty() || !self.handle.is_idle() || self.thread_pool.pending_count()
            != 0
    }

    /// Returns the handle to the event-loop.
    pub fn handle(&mut self) -> (handle: &mut LoopHandle)
        ensures
            handle@ == old(self)@.handle,
            final(self)@ == (LoopState { handle: final(handle)@, ..old(self)@ }),
            old(self)@.wf() && old(self)@.handle.used(final(handle)@) ==> final(self)@.wf(),
    {
        proof {
            assert forall|later: HandleView|
                self@.wf() && #[trigger] self@.handle.used(later) implies (LoopState {
                handle: later,
                ..self@
            }).wf() by {
                lemma_handle_used(self@, later);
            }
        }
        &mut self.handle
    }
}

} // verus!
