//! The handle through which work is scheduled.

use crate::check::{Check, CheckHandle};
use crate::event_loop::laws::{
    idle_use_of_handle, reference_uses_handle, request_uses_handle, start_uses_handle,
};
use crate::event_loop::{HandleView, Request, RequestView};
use crate::fs::{FsWatcher, FsWatcherHandle, WatchMode};
use crate::fs_event::{FsEvent, FsEventHandle};
use crate::resource::{CallbackId, ChannelId, ErrorId, PathId, SharedId, SocketId, WorkId};
use crate::signals::{
    always_forbidden, maybe_forbidden, Lifetime, Signal, SignalError, SignalHandle, SignalNum,
    MAX_SIGNAL_VALUE,
};
use crate::task::{Task, TaskHandle};
use crate::tcp_listener::TcpListener;
use crate::tcp_stream::{StreamView, TcpStream};
use crate::timers::{Nanos, Timer, TimerHandle, TimerKind, MAX_SPAN};
use crate::tty::{TtyHandle, TtyReader};
use std::collections::VecDeque;
use vstd::prelude::*;

verus! {

/// Schedules work in an event-loop. The requests made here are served by the
/// loop in the order they were made.
pub struct LoopHandle {
    request_queue: VecDeque<Request>,
    request_queue_empty: bool,
    next_id: SharedId,
}

impl View for LoopHandle {
    type V = HandleView;

    closed spec fn view(&self) -> HandleView {
        HandleView {
            requests: self.request_queue@.map_values(|request: Request| request@),
            queue_empty: self.request_queue_empty,
            next_id: self.next_id,
        }
    }
}

impl LoopHandle {
    /// Creates a handle with nothing scheduled.
    pub(crate) fn new() -> (handle: Self)
        ensures
            handle@ == HandleView::start(),
    {
        let handle = LoopHandle {
            request_queue: VecDeque::new(),
            request_queue_empty: true,
            next_id: 0,
        };
        assert(handle@.requests =~= Seq::empty());
        handle
    }

    /// Makes up a reference for a resource that is not yet in the event-loop.
    /// The event-loop links it to a real resource later.
    pub(crate) fn new_id(&mut self) -> (id: SharedId)
        requires
            old(self)@.next_id < u64::MAX,
        ensures
            id == old(self)@.next_id,
            final(self)@ == old(self)@.referenced(),
    {
        let id = self.next_id;
        self.next_id = id + 1;
        id
    }

    /// Queues a request.
    fn send(&mut self, request: Request)
        ensures
            final(self)@ == old(self)@.queued(request@),
            request@.starts() is None ==> old(self)@.used(final(self)@),
    {
        proof {
            if request@.starts() is None {
                request_uses_handle(old(self)@, request@);
            }
        }
        self.request_queue.push_back(request);
        self.request_queue_empty = false;
        assert(self@.requests =~= old(self)@.requests.push(request@));
    }

    /// Takes the next request off the queue.
    pub(crate) fn receive(&mut self) -> (request: Option<Request>)
        ensures
            match request {
                Some(request) => old(self)@.requests.len() > 0 && request@ == old(self)@.requests[0]
                    && final(self)@ == old(self)@.received(),
                None => old(self)@.requests.len() == 0 && final(self)@ == old(self)@,
            },
    {
        let request = self.request_queue.pop_front();
        if request.is_some() {
            self.request_queue_empty = self.request_queue.len() == 0;
        }
        proof {
            if request is Some {
                assert(self@.requests =~= old(self)@.requests.drop_first());
            } else {
                assert(self@.requests =~= old(self)@.requests);
            }
        }
        request
    }

    /// Returns the next request.
    pub(crate) fn peek(&self) -> (request: Option<&Request>)
        ensures
            match request {
                Some(request) => self@.requests.len() > 0 && request@ == self@.requests[0],
                None => self@.requests.len() == 0,
            },
    {
        if self.request_queue.len() == 0 {
            None
        } else {
            Some(&self.request_queue[0])
        }
    }

    /// Returns true if no request waits to be served.
    pub fn is_idle(&self) -> (idle: bool)
        ensures
            idle == self@.queue_empty,
    {
        self.request_queue_empty
    }

    /// Returns true if another reference can be made up.
    pub fn has_room(&self) -> (room: bool)
        ensures
            room == (self@.next_id < u64::MAX),
    {
        self.next_id < u64::MAX
    }

    /// Schedules a new timer to the event-loop.
    pub fn timer(&mut self, delay: Nanos, kind: TimerKind, callback: CallbackId) -> (handle:
        TimerHandle)
        requires
            old(self)@.next_id < u64::MAX,
            delay <= MAX_SPAN,
        ensures
            handle.id == old(self)@.next_id,
            final(self)@ == old(self)@.referenced().queued(
                RequestView::TimerStart(Timer { id: handle.id, delay, callback, kind }),
            ),
            old(self)@.used(final(self)@),
    {
        let timer = Timer { id: self.new_id(), delay, callback, kind };
        let request = Request::TimerStart(timer);
        proof {
            start_uses_handle(old(self)@, request@);
        }
        self.send(request);
        timer.handle()
    }

    /// Schedules a new task to the event-loop.
    pub fn spawn(&mut self, work: WorkId, cancelation: ChannelId) -> (handle: TaskHandle)
        requires
            old(self)@.next_id < u64::MAX,
        ensures
            handle == (TaskHandle { id: old(self)@.next_id, cancelation }),
            final(self)@ == old(self)@.referenced().queued(
                RequestView::TaskSpawn(
                    Task { id: handle.id, on_complete: None, cancelation },
                    work,
                ),
            ),
            old(self)@.used(final(self)@),
    {
        let task = Task { id: self.new_id(), on_complete: None, cancelation };
        let request = Request::TaskSpawn(task, work);
        proof {
            start_uses_handle(old(self)@, request@);
        }
        self.send(request);
        task.handle()
    }

    /// Schedules a new task with a callback to the event-loop.
    pub fn spawn_with_callback(
        &mut self,
        work: WorkId,
        cancelation: ChannelId,
        callback: CallbackId,
    ) -> (handle: TaskHandle)
        requires
            old(self)@.next_id < u64::MAX,
        ensures
            handle == (TaskHandle { id: old(self)@.next_id, cancelation }),
            final(self)@ == old(self)@.referenced().queued(
                RequestView::TaskSpawn(
                    Task { id: handle.id, on_complete: Some(callback), cancelation },
                    work,
                ),
            ),
            old(self)@.used(final(self)@),
    {
        let task = Task { id: self.new_id(), on_complete: Some(callback), cancelation };
        let request = Request::TaskSpawn(task, work);
        proof {
            start_uses_handle(old(self)@, request@);
        }
        self.send(request);
        task.handle()
    }

    /// Creates a new tcp stream out of an attempt to connect a socket.
    pub fn tcp_connect(&mut self, connect: Result<SocketId, ErrorId>, callback: CallbackId) -> (res:
        Result<(), ErrorId>)
        requires
            connect is Ok ==> old(self)@.next_id < u64::MAX,
        ensures
            match connect {
                Ok(socket) => res is Ok && final(self)@ == old(self)@.referenced().queued(
                    RequestView::TcpInit(
                        StreamView {
                            id: old(self)@.next_id,
                            socket,
                            on_connection: Some(callback),
                            on_read: None,
                            on_close: None,
                            write_queue: Seq::empty(),
                        },
                    ),
                ),
                Err(error) => res == Err::<(), _>(error) && final(self)@ == old(self)@,
            },
            old(self)@.used(final(self)@),
    {
        match connect {
            Ok(socket) => {
                let stream = TcpStream::new(self.new_id(), socket, Some(callback));
                let request = Request::TcpInit(stream);
                proof {
                    start_uses_handle(old(self)@, request@);
                }
                self.send(request);
                Ok(())
            },
            Err(error) => {
                proof {
                    idle_use_of_handle(old(self)@);
                }
                Err(error)
            },
        }
    }

    /// Starts listening for incoming connections, given an attempt to bind a
    /// socket.
    pub fn tcp_listen(&mut self, bind: Result<SocketId, ErrorId>, callback: CallbackId) -> (res:
        Result<(), ErrorId>)
        requires
            bind is Ok ==> old(self)@.next_id < u64::MAX,
        ensures
            match bind {
                Ok(socket) => res is Ok && final(self)@ == old(self)@.referenced().queued(
                    RequestView::TcpListen(
                        TcpListener {
                            id: old(self)@.next_id,
                            socket,
                            on_connection: callback,
                            on_close: None,
                        },
                    ),
                ),
                Err(error) => res == Err::<(), _>(error) && final(self)@ == old(self)@,
            },
            old(self)@.used(final(self)@),
    {
        match bind {
            Ok(socket) => {
                let listener = TcpListener {
                    id: self.new_id(),
                    socket,
                    on_connection: callback,
                    on_close: None,
                };
                let request = Request::TcpListen(listener);
                proof {
                    start_uses_handle(old(self)@, request@);
                }
                self.send(request);
                Ok(())
            },
            Err(error) => {
                proof {
                    idle_use_of_handle(old(self)@);
                }
                Err(error)
            },
        }
    }

    /// Writes bytes to an open tcp stream.
    pub fn tcp_write(&mut self, id: SharedId, data: Vec<u8>, callback: CallbackId)
        ensures
            final(self)@ == old(self)@.queued(RequestView::TcpWrite(id, data@, callback)),
            old(self)@.used(final(self)@),
    {
        self.send(Request::TcpWrite(id, data, callback));
    }

    /// Initializes a new check callback to the event-loop. Check resources will run the
    /// given callback once per loop iteration, right after polling for I/O.
    pub fn check(&mut self, callback: CallbackId) -> (handle: CheckHandle)
        requires
            old(self)@.next_id < u64::MAX,
        ensures
            handle.id == old(self)@.next_id,
            final(self)@ == old(self)@.referenced().queued(
                RequestView::CheckInit(Check { id: handle.id, callback }),
            ),
            old(self)@.used(final(self)@),
    {
        let check = Check { id: self.new_id(), callback };
        let request = Request::CheckInit(check);
        proof {
            start_uses_handle(old(self)@, request@);
        }
        self.send(request);
        check.handle()
    }

    /// Starts to listen to a signal.
    pub fn signal(&mut self, number: i32, lifetime: Lifetime, callback: CallbackId) -> (res: Result<
        SignalHandle,
        SignalError,
    >)
        requires
            old(self)@.next_id < u64::MAX,
        ensures
            match res {
                Ok(handle) => number <= MAX_SIGNAL_VALUE && !always_forbidden(number) && handle.id
                    == old(self)@.next_id && final(self)@ == old(self)@.referenced().queued(
                    RequestView::SignalStart(
                        number,
                        Signal { id: handle.id, callback, lifetime },
                    ),
                ),
                Err(SignalError::OutOfRange) => number > MAX_SIGNAL_VALUE && final(self)@ == old(
                    self,
                )@,
                Err(SignalError::Forbidden) => number <= MAX_SIGNAL_VALUE && maybe_forbidden(number)
                    && final(self)@ == old(self)@,
            },
            number > MAX_SIGNAL_VALUE ==> res == Err::<SignalHandle, _>(SignalError::OutOfRange),
            always_forbidden(number) ==> res == Err::<SignalHandle, _>(SignalError::Forbidden),
            number <= MAX_SIGNAL_VALUE && !maybe_forbidden(number) ==> res is Ok,
            old(self)@.used(final(self)@),
    {
        let signum = match SignalNum::try_from(number) {
            Ok(signum) => signum,
            Err(error) => {
                proof {
                    idle_use_of_handle(old(self)@);
                }
                return Err(error);
            },
        };
        let signal = Signal { id: self.new_id(), callback, lifetime };
        let request = Request::SignalStart(signum, signal);
        proof {
            start_uses_handle(old(self)@, request@);
        }
        self.send(request);
        Ok(signal.handle())
    }

    /// Stops listening to a signal.
    pub fn signal_stop(&mut self, id: u64)
        ensures
            final(self)@ == old(self)@.queued(RequestView::SignalStop(id)),
            old(self)@.used(final(self)@),
    {
        self.send(Request::SignalStop(id));
    }

    /// Returns a handle to the terminal.
    pub fn tty(&mut self) -> (handle: TtyHandle)
        requires
            old(self)@.next_id < u64::MAX,
        ensures
            handle == (TtyHandle { id: old(self)@.next_id, stop: None }),
            final(self)@ == old(self)@.referenced(),
            old(self)@.used(final(self)@),
    {
        proof {
            reference_uses_handle(old(self)@);
        }
        TtyHandle { id: self.new_id(), stop: None }
    }

    /// Starts reading from the terminal.
    pub(crate) fn tty_read_start(&mut self, reader: TtyReader)
        ensures
            final(self)@ == old(self)@.queued(RequestView::TtyReadStart(reader)),
    {
        self.send(Request::TtyReadStart(reader));
    }

    /// Creates a watcher that monitors the specified path for changes, given an
    /// attempt to find the path.
    pub fn fs_event_start(
        &mut self,
        path: Result<PathId, ErrorId>,
        mode: WatchMode,
        callback: CallbackId,
    ) -> (res: Result<FsEventHandle, ErrorId>)
        requires
            path is Ok ==> old(self)@.next_id < u64::MAX,
        ensures
            match path {
                Ok(path) => res == Ok::<_, ErrorId>(FsEventHandle { id: old(self)@.next_id })
                    && final(self)@ == old(self)@.referenced().queued(
                    RequestView::FsEventStart(
                        FsEvent {
                            id: old(self)@.next_id,
                            path,
                            callback,
                            watching: false,
                            mode,
                        },
                    ),
                ),
                Err(error) => res == Err::<FsEventHandle, _>(error) && final(self)@ == old(self)@,
            },
            old(self)@.used(final(self)@),
    {
        match path {
            Ok(path) => {
                let fs_event = FsEvent {
                    id: self.new_id(),
                    path,
                    callback,
                    watching: false,
                    mode,
                };
                let request = Request::FsEventStart(fs_event);
                proof {
                    start_uses_handle(old(self)@, request@);
                }
                self.send(request);
                Ok(fs_event.handle())
            },
            Err(error) => {
                proof {
                    idle_use_of_handle(old(self)@);
                }
                Err(error)
            },
        }
    }

    /// Creates a watcher that reports on the specified path, given an attempt to
    /// find the path.
    pub fn fs_watcher(
        &mut self,
        path: Result<PathId, ErrorId>,
        mode: WatchMode,
        callback: CallbackId,
    ) -> (res: Result<FsWatcherHandle, ErrorId>)
        requires
            path is Ok ==> old(self)@.next_id < u64::MAX,
        ensures
            match path {
                Ok(path) => res == Ok::<_, ErrorId>(FsWatcherHandle { id: old(self)@.next_id })
                    && final(self)@ == old(self)@.referenced().queued(
                    RequestView::FsWatcherStart(
                        FsWatcher {
                            id: old(self)@.next_id,
                            path,
                            callback,
                            watching: false,
                            mode,
                        },
                    ),
                ),
                Err(error) => res == Err::<FsWatcherHandle, _>(error) && final(self)@ == old(self)@,
            },
            old(self)@.used(final(self)@),
    {
        match path {
            Ok(path) => {
                let watcher = FsWatcher {
                    id: self.new_id(),
                    path,
                    callback,
                    watching: false,
                    mode,
                };
                let request = Request::FsWatcherStart(watcher);
                proof {
                    start_uses_handle(old(self)@, request@);
                }
                self.send(request);
                Ok(watcher.handle())
            },
            Err(error) => {
                proof {
                    idle_use_of_handle(old(self)@);
                }
                Err(error)
            },
        }
    }

    /// Removes a timer from the event-loop.
    pub fn cancel_timer(&mut self, id: SharedId)
        ensures
            final(self)@ == old(self)@.queued(RequestView::TimerCancel(id)),
            old(self)@.used(final(self)@),
    {
        self.send(Request::TimerCancel(id));
    }

    /// Removes a task from the event-loop.
    pub fn cancel_task(&mut self, id: SharedId)
        ensures
            final(self)@ == old(self)@.queued(RequestView::TaskCancel(id)),
            old(self)@.used(final(self)@),
    {
        self.send(Request::TaskCancel(id));
    }

    /// Removes a check resource from the event-loop.
    pub fn check_remove(&mut self, id: SharedId)
        ensures
            final(self)@ == old(self)@.queued(RequestView::CheckRemove(id)),
            old(self)@.used(final(self)@),
    {
        self.send(Request::CheckRemove(id));
    }

    /// Stops the watcher, the callback will no longer be called.
    pub fn fs_event_stop(&mut self, id: SharedId)
        ensures
            final(self)@ == old(self)@.queued(RequestView::FsEventStop(id)),
            old(self)@.used(final(self)@),
    {
        self.send(Request::FsEventStop(id));
    }

    /// Stops the watcher, the callback will no longer be called.
    pub fn fs_watcher_stop(&mut self, id: SharedId)
        ensures
            final(self)@ == old(self)@.queued(RequestView::FsWatcherStop(id)),
            old(self)@.used(final(self)@),
    {
        self.send(Request::FsWatcherStop(id));
    }

    /// Stops reading from the terminal.
    pub fn tty_close(&mut self, id: SharedId)
        ensures
            final(self)@ == old(self)@.queued(RequestView::TtyClose(id)),
            old(self)@.used(final(self)@),
    {
        self.send(Request::TtyClose(id));
    }

    /// Starts reading from an open tcp stream.
    pub fn tcp_read_start(&mut self, id: SharedId, callback: CallbackId)
        ensures
            final(self)@ == old(self)@.queued(RequestView::TcpRead(id, callback)),
            old(self)@.used(final(self)@),
    {
        self.send(Request::TcpRead(id, callback));
    }

    /// Closes the write side of the tcp stream.
    pub fn tcp_shutdown(&mut self, id: SharedId, callback: CallbackId)
        ensures
            final(self)@ == old(self)@.queued(RequestView::TcpShutdown(id, callback)),
            old(self)@.used(final(self)@),
    {
        self.send(Request::TcpShutdown(id, callback));
    }

    /// Completely shutdowns the tcp stream.
    pub fn tcp_close(&mut self, id: SharedId, callback: CallbackId)
        ensures
            final(self)@ == old(self)@.queued(RequestView::TcpClose(id, callback)),
            old(self)@.used(final(self)@),
    {
        self.send(Request::TcpClose(id, callback));
    }

    /// Stops a listener from accepting new connections.
    pub fn tcp_stop(&mut self, id: SharedId, callback: CallbackId)
        ensures
            final(self)@ == old(self)@.queued(RequestView::TcpListenStop(id, callback)),
            old(self)@.used(final(self)@),
    {
        self.send(Request::TcpListenStop(id, callback));
    }
}

} // verus!
