//! What an index loop holds, and what every step makes of it.

use crate::effect::Interest;
use crate::index_loop::read_buffer::BufferView;
use crate::index_loop::{
    ActionView, Command, CommandView, Event, Index, Stage, TcpEvent, TcpView, WrapView,
};
use crate::resource::{CallbackId, SocketId};
use crate::tcp_stream::SocketStatus;
use crate::timers::{
    is_earliest, is_scheduled, pending_from, scheduled, unscheduled, Nanos, MAX_SPAN,
};
use vstd::prelude::*;

verus! {

/// What a [`LoopHandle`](crate::index_loop::LoopHandle) holds.
#[verifier::ext_equal]
pub struct HandleState {
    /// The next index.
    pub index: Index,
    /// The actions that have not been performed yet.
    pub actions: Seq<ActionView>,
    /// Whether no action waits to be performed.
    pub queue_empty: bool,
}

impl HandleState {
    /// Nothing scheduled.
    pub open spec fn start() -> HandleState {
        HandleState { index: 1, actions: Seq::empty(), queue_empty: true }
    }

    /// The handle after one more index was given.
    pub open spec fn indexed(self) -> HandleState {
        HandleState { index: (self.index + 1) as u32, ..self }
    }

    /// The handle after one more action.
    pub open spec fn queued(self, action: ActionView) -> HandleState {
        HandleState { actions: self.actions.push(action), queue_empty: false, ..self }
    }

    /// The handle without the next action.
    pub open spec fn taken(self) -> HandleState {
        HandleState {
            actions: self.actions.drop_first(),
            queue_empty: self.actions.len() == 1,
            ..self
        }
    }

    /// Whether `later` comes of this handle by giving indexes and scheduling
    /// actions: what they start has an index that was given since, and none has
    /// that of another.
    pub open spec fn used(self, later: HandleState) -> bool {
        let count = self.actions.len();
        &&& self.index <= later.index
        &&& count <= later.actions.len()
        &&& later.actions.take(count as int) == self.actions
        &&& later.queue_empty == (self.queue_empty && later.actions.len() == count)
        &&& forall|i: int|
            count <= i < later.actions.len() && (
            #[trigger] later.actions[i]).starts() is Some ==> self.index
                <= later.actions[i].starts()->0 < later.index
        &&& forall|i: int, j: int|
            count <= i < j < later.actions.len() && (
            #[trigger] later.actions[i]).starts() is Some ==> later.actions[i].starts() != (
            #[trigger] later.actions[j]).starts()
        &&& forall|i: int|
            count <= i < later.actions.len() && (#[trigger] later.actions[i]) is NewTimer
                ==> later.actions[i]->NewTimer_1.expires_at <= MAX_SPAN
    }
}

impl ActionView {
    /// The index of what the action adds to the loop.
    pub open spec fn starts(self) -> Option<Index> {
        match self {
            ActionView::NewTimer(index, _) => Some(index),
            ActionView::SpawnTask(index, _, _) => Some(index),
            ActionView::NewTcpConnection(index, _) => Some(index),
            _ => None,
        }
    }
}

impl Stage {
    /// The stage that follows.
    pub open spec fn next(self) -> Stage {
        match self {
            Stage::Prepare => Stage::Timers,
            Stage::Timers => Stage::Poll,
            Stage::Poll | Stage::Done => Stage::Done,
        }
    }
}

impl TcpView {
    /// The readiness to poll for while the connection is being read.
    pub open spec fn read_interest(self) -> Interest {
        if self.write_queue.len() == 0 {
            Interest::Readable
        } else {
            Interest::Both
        }
    }
}

/// What a [`SocketTurn`](crate::index_loop::SocketTurn) holds.
pub enum SocketTurnView {
    Done(Seq<CommandView>),
    Connected(SocketId, CallbackId),
    Write(SocketId, Seq<u8>, CallbackId),
}

/// The command to forget a callback, if there is one.
pub open spec fn forgotten(callback: Option<CallbackId>) -> Seq<CommandView> {
    match callback {
        Some(callback) => seq![CommandView::Plain(Command::Release(callback))],
        None => Seq::empty(),
    }
}

/// What an [`EventLoop`](crate::index_loop::EventLoop) holds.
#[verifier::ext_equal]
pub struct IndexState {
    pub resources: Map<Index, WrapView>,
    pub timer_queue: Map<Nanos, Seq<Index>>,
    pub pending_tasks: u32,
    pub handle: HandleState,
}

impl IndexState {
    /// A loop at its start.
    pub open spec fn start() -> IndexState {
        IndexState {
            resources: Map::empty(),
            timer_queue: Map::empty(),
            pending_tasks: 0,
            handle: HandleState::start(),
        }
    }

    /// Whether there is anything left to do.
    pub open spec fn pending(self) -> bool {
        self.resources != Map::<Index, WrapView>::empty() || !self.handle.queue_empty
    }

    /// The tasks that are tracked.
    pub open spec fn tasks(self) -> Set<Index> {
        self.resources.dom().filter(|index: Index| self.resources[index] is Task)
    }

    /// Whatever has the index is a timer.
    pub open spec fn is_timer(self, index: Index) -> bool {
        self.resources.contains_key(index) ==> self.resources[index] is Timer
    }

    /// The loop without the next action.
    pub open spec fn taken(self) -> IndexState {
        IndexState { handle: self.handle.taken(), ..self }
    }

    /// Whether an action can be performed: what it is for must be there, or be
    /// of the right kind.
    pub open spec fn performable(self, action: ActionView) -> bool {
        match action {
            ActionView::SpawnTask(_, _, _) => self.pending_tasks < u32::MAX,
            ActionView::NewTcpWriteRequest(index, _, _) => self.resources.contains_key(index)
                ==> self.resources[index] is Tcp,
            ActionView::NewTcpReadStart(index, _) => self.resources.contains_key(index)
                ==> self.resources[index] is Tcp,
            ActionView::CloseTcpSocket(index, _) => self.resources.contains_key(index),
            _ => true,
        }
    }

    /// What an action leads to that is performed at the time `now`.
    pub open spec fn acted(self, action: ActionView, now: Nanos) -> (IndexState, Seq<CommandView>) {
        match action {
            ActionView::NewTimer(index, timer) => (
                IndexState {
                    resources: self.resources.insert(index, WrapView::Timer(timer)),
                    timer_queue: scheduled(
                        self.timer_queue,
                        (now + timer.expires_at) as u128,
                        index,
                    ),
                    ..self
                },
                Seq::empty(),
            ),
            ActionView::RemoveTimer(index) => (
                IndexState {
                    resources: self.resources.remove(index),
                    timer_queue: unscheduled(self.timer_queue, index),
                    ..self
                },
                if self.resources.contains_key(index) {
                    seq![CommandView::Drop(self.resources[index])]
                } else {
                    Seq::empty()
                },
            ),
            ActionView::SpawnTask(index, work, task) => (
                IndexState {
                    resources: if task.inner is Some {
                        self.resources.insert(index, WrapView::Task(task))
                    } else {
                        self.resources
                    },
                    pending_tasks: (self.pending_tasks + 1) as u32,
                    ..self
                },
                seq![CommandView::Plain(Command::Execute(index, work))],
            ),
            ActionView::NewTcpConnection(index, tcp) => (
                IndexState {
                    resources: self.resources.insert(index, WrapView::Tcp(tcp)),
                    ..self
                },
                seq![
                    CommandView::Plain(
                        Command::Register(tcp.socket, tcp.id as usize, Interest::Writable),
                    ),
                ],
            ),
            ActionView::NewTcpWriteRequest(index, data, on_write) => {
                if self.resources.contains_key(index) {
                    let tcp = self.resources[index]->Tcp_0;
                    (
                        IndexState {
                            resources: self.resources.insert(
                                index,
                                WrapView::Tcp(
                                    TcpView {
                                        write_queue: tcp.write_queue.push((data, on_write)),
                                        ..tcp
                                    },
                                ),
                            ),
                            ..self
                        },
                        seq![
                            CommandView::Plain(
                                Command::Reregister(tcp.socket, index as usize, Interest::Both),
                            ),
                        ],
                    )
                } else {
                    (self, seq![CommandView::Plain(Command::Release(on_write))])
                }
            },
            ActionView::NewTcpReadStart(index, on_read) => {
                if self.resources.contains_key(index) {
                    let tcp = self.resources[index]->Tcp_0;
                    (
                        IndexState {
                            resources: self.resources.insert(
                                index,
                                WrapView::Tcp(TcpView { on_read: Some(on_read), ..tcp }),
                            ),
                            ..self
                        },
                        forgotten(tcp.on_read).push(
                            CommandView::Plain(
                                Command::Reregister(
                                    tcp.socket,
                                    index as usize,
                                    tcp.read_interest(),
                                ),
                            ),
                        ),
                    )
                } else {
                    (self, seq![CommandView::Plain(Command::Release(on_read))])
                }
            },
            ActionView::CloseTcpSocket(index, on_close) => (
                IndexState { resources: self.resources.remove(index), ..self },
                if self.resources.contains_key(index) {
                    seq![
                        CommandView::Drop(self.resources[index]),
                        CommandView::Plain(Command::CloseCallback(on_close)),
                    ]
                } else {
                    seq![CommandView::Plain(Command::CloseCallback(on_close))]
                },
            ),
        }
    }

    /// The loop without the timers that have expired.
    pub open spec fn expired(self, now: Nanos) -> IndexState {
        IndexState { timer_queue: pending_from(self.timer_queue, now), ..self }
    }

    /// What becomes of a timer whose callback has run.
    pub open spec fn timer_finished(self, index: Index, now: Nanos) -> (
        IndexState,
        Seq<CommandView>,
    ) {
        let timer = self.resources[index]->Timer_0;
        if timer.repeat {
            (
                IndexState {
                    timer_queue: scheduled(
                        self.timer_queue,
                        (now + timer.expires_at) as u128,
                        index,
                    ),
                    ..self
                },
                Seq::empty(),
            )
        } else {
            (
                IndexState { resources: self.resources.remove(index), ..self },
                seq![CommandView::Drop(self.resources[index])],
            )
        }
    }

    /// How long the poll phase should wait: until the next timer, or for ever if
    /// only tasks are running.
    pub open spec fn poll_timeout(self, now: Nanos) -> Nanos {
        if exists|at: Nanos| is_earliest(self.timer_queue, at) {
            let at = choose|at: Nanos| is_earliest(self.timer_queue, at);
            if at > now {
                (at - now) as u128
            } else {
                0
            }
        } else if self.pending_tasks > 0 {
            MAX_SPAN
        } else {
            0
        }
    }

    /// Whether the loop can take an event, given the error state of the socket
    /// that it is about.
    pub open spec fn accepts(self, event: Event, status: SocketStatus) -> bool {
        match event {
            Event::Interrupt => true,
            Event::ThreadPool(index) => self.resources.contains_key(index)
                ==> self.resources[index] is Task,
            Event::Network(TcpEvent::Write(index)) => self.resources.contains_key(index) ==> {
                &&& self.resources[index] is Tcp
                &&& status is Failed ==> self.resources[index]->Tcp_0.on_connection is Some
            },
            Event::Network(TcpEvent::Read(index)) => self.resources.contains_key(index) ==> {
                &&& self.resources[index] is Tcp
                &&& self.resources[index]->Tcp_0.on_read is Some
            },
        }
    }

    /// What a finished task leads to.
    pub open spec fn task_finished(self, index: Index) -> (IndexState, Seq<CommandView>) {
        if self.resources.contains_key(index) {
            (
                IndexState {
                    resources: self.resources.remove(index),
                    pending_tasks: (self.pending_tasks - 1) as u32,
                    ..self
                },
                match self.resources[index]->Task_0.inner {
                    Some(callback) => seq![CommandView::Plain(Command::TaskCallback(callback))],
                    None => Seq::empty(),
                },
            )
        } else {
            (self, Seq::empty())
        }
    }

    /// What a socket is to be used for that is ready for writing. A connection
    /// that has failed is reported and dropped; one that is established is
    /// reported; otherwise the front of the write queue is to be written.
    pub open spec fn write_turn(self, index: Index, status: SocketStatus) -> (
        IndexState,
        SocketTurnView,
    ) {
        if !self.resources.contains_key(index) {
            (self, SocketTurnView::Done(Seq::empty()))
        } else {
            let tcp = self.resources[index]->Tcp_0;
            let told = TcpView { on_connection: None, ..tcp };
            match status {
                SocketStatus::Failed(error) => (
                    IndexState { resources: self.resources.remove(index), ..self },
                    SocketTurnView::Done(
                        seq![
                            CommandView::Plain(
                                Command::ConnectionCallback(
                                    tcp.on_connection->0,
                                    index,
                                    Err(error),
                                ),
                            ),
                            CommandView::Drop(WrapView::Tcp(told)),
                        ],
                    ),
                ),
                SocketStatus::Healthy => match tcp.on_connection {
                    Some(callback) => (
                        IndexState {
                            resources: self.resources.insert(index, WrapView::Tcp(told)),
                            ..self
                        },
                        SocketTurnView::Connected(tcp.socket, callback),
                    ),
                    None => if tcp.write_queue.len() > 0 {
                        (
                            IndexState {
                                resources: self.resources.insert(
                                    index,
                                    WrapView::Tcp(
                                        TcpView {
                                            write_queue: tcp.write_queue.drop_first(),
                                            ..tcp
                                        },
                                    ),
                                ),
                                ..self
                            },
                            SocketTurnView::Write(
                                tcp.socket,
                                tcp.write_queue[0].0,
                                tcp.write_queue[0].1,
                            ),
                        )
                    } else {
                        (self, SocketTurnView::Done(Seq::empty()))
                    },
                },
            }
        }
    }

    /// What a series of reads leads to: its last error is reported, or all the
    /// bytes. No bytes are reported only if the other side is done writing.
    pub open spec fn read_commands(self, index: Index, buffer: BufferView) -> Seq<CommandView> {
        if self.resources.contains_key(index) && (buffer.error is Some || buffer.data.len() > 0
            || buffer.eof) {
            seq![
                CommandView::ReadCallback(
                    self.resources[index]->Tcp_0.on_read->0,
                    index,
                    match buffer.error {
                        Some(error) => Err(error),
                        None => Ok(buffer.data),
                    },
                ),
            ]
        } else {
            Seq::empty()
        }
    }
}

impl IndexState {
    /// An index that was given and that nothing has.
    pub open spec fn unused(self, index: Index) -> bool {
        &&& index < self.handle.index
        &&& !self.resources.contains_key(index)
        &&& !is_scheduled(self.timer_queue, index)
    }

    /// No index is given to two things, and those that wait in the timer queue
    /// are those of timers.
    pub open spec fn indexes_sound(self) -> bool {
        &&& forall|index: Index| #[trigger]
            self.resources.contains_key(index) ==> index < self.handle.index
        &&& forall|index: Index| #[trigger]
            is_scheduled(self.timer_queue, index) ==> index < self.handle.index && self.is_timer(
                index,
            )
        &&& forall|i: int|
            0 <= i < self.handle.actions.len() && (
            #[trigger] self.handle.actions[i]).starts() is Some ==> self.unused(
                self.handle.actions[i].starts()->0,
            )
        &&& forall|i: int, j: int|
            0 <= i < j < self.handle.actions.len() && (
            #[trigger] self.handle.actions[i]).starts() is Some ==> self.handle.actions[i].starts()
                != (#[trigger] self.handle.actions[j]).starts()
    }

    /// No timer reaches beyond the end of time.
    pub open spec fn times_sound(self) -> bool {
        &&& forall|index: Index| #[trigger]
            self.resources.contains_key(index) && self.resources[index] is Timer
                ==> self.resources[index]->Timer_0.expires_at <= MAX_SPAN
        &&& forall|i: int|
            0 <= i < self.handle.actions.len() && (
            #[trigger] self.handle.actions[i]) is NewTimer
                ==> self.handle.actions[i]->NewTimer_1.expires_at <= MAX_SPAN
    }

    /// Every task that is tracked is pending.
    pub open spec fn tasks_sound(self) -> bool {
        &&& self.resources.dom().finite()
        &&& self.tasks().len() <= self.pending_tasks
    }

    /// What holds of a loop at all times.
    pub open spec fn wf(self) -> bool {
        &&& self.indexes_sound()
        &&& self.times_sound()
        &&& self.tasks_sound()
        &&& self.timer_queue.dom().finite()
        &&& self.handle.queue_empty <==> self.handle.actions.len() == 0
    }

    /// Whether an action that is off the queue may be performed.
    pub open spec fn admits(self, action: ActionView) -> bool {
        &&& self.performable(action)
        &&& action.starts() is Some ==> {
            &&& self.unused(action.starts()->0)
            &&& forall|i: int|
                0 <= i < self.handle.actions.len() ==> (#[trigger] self.handle.actions[i]).starts()
                    != action.starts()
        }
        &&& action is NewTimer ==> action->NewTimer_1.expires_at <= MAX_SPAN
    }
}

} // verus!
