//! A small event-loop whose resources are told apart by running numbers.
//!
//! As in [`event_loop`](crate::event_loop), the loop decides and its driver
//! acts. The clock is read by the driver whenever a time is needed.

pub mod answers;
pub mod handle;
pub mod laws;
mod lemmas;
pub mod read_buffer;
pub mod runs;
pub mod state;

use crate::effect::Interest;
use crate::event_loop::Readiness;
use crate::index_loop::lemmas::{
    lemma_acted, lemma_due, lemma_fewer_resources, lemma_handle_used, lemma_replaced,
    lemma_started_alike, lemma_taken, lemma_timer_scheduled,
};
use crate::index_loop::read_buffer::ReadBuffer;
use crate::index_loop::state::{HandleState, IndexState, SocketTurnView};
use crate::resource::{CallbackId, ErrorId, SocketId, WorkId};
use crate::tcp_stream::SocketStatus;
use crate::timers::{expired_before, is_earliest, Nanos, TimersCollection, MAX_SPAN};
use std::collections::{HashMap, VecDeque};
use vstd::prelude::*;

pub use handle::LoopHandle;

verus! {

broadcast use vstd::std_specs::hash::group_hash_axioms;

/// The number of a resource.
pub type Index = u32;

/// The number under which the driver keeps a socket address.
pub type AddressId = u64;

/// A timer.
#[derive(Debug, Clone, Copy, PartialEq, Eq, Structural)]
pub struct TimerWrap {
    pub cb: CallbackId,
    /// How long after it was scheduled the timer expires.
    pub expires_at: Nanos,
    pub repeat: bool,
}

/// A task that runs off the loop.
#[derive(Debug, Clone, Copy, PartialEq, Eq, Structural)]
pub struct TaskWrap {
    pub inner: Option<CallbackId>,
}

/// A tcp connection.
#[derive(Debug, PartialEq, Eq)]
pub struct TcpStreamWrap {
    pub id: Index,
    pub socket: SocketId,
    pub on_connection: Option<CallbackId>,
    pub on_read: Option<CallbackId>,
    pub write_queue: VecDeque<(Vec<u8>, CallbackId)>,
}

/// What a [`TcpStreamWrap`] holds.
#[verifier::ext_equal]
pub struct TcpView {
    pub id: Index,
    pub socket: SocketId,
    pub on_connection: Option<CallbackId>,
    pub on_read: Option<CallbackId>,
    pub write_queue: Seq<(Seq<u8>, CallbackId)>,
}

impl View for TcpStreamWrap {
    type V = TcpView;

    open spec fn view(&self) -> TcpView {
        TcpView {
            id: self.id,
            socket: self.socket,
            on_connection: self.on_connection,
            on_read: self.on_read,
            write_queue: self.write_queue@.map_values(
                |entry: (Vec<u8>, CallbackId)| (entry.0@, entry.1),
            ),
        }
    }
}

/// Everything that is tracked by the loop.
#[derive(Debug, PartialEq, Eq)]
pub enum Wrap {
    Timer(TimerWrap),
    Task(TaskWrap),
    Tcp(TcpStreamWrap),
}

/// What a [`Wrap`] holds.
pub enum WrapView {
    Timer(TimerWrap),
    Task(TaskWrap),
    Tcp(TcpView),
}

impl View for Wrap {
    type V = WrapView;

    open spec fn view(&self) -> WrapView {
        match *self {
            Wrap::Timer(timer) => WrapView::Timer(timer),
            Wrap::Task(task) => WrapView::Task(task),
            Wrap::Tcp(tcp) => WrapView::Tcp(tcp@),
        }
    }
}

/// What is known about the socket of an open connection.
#[derive(Debug, Clone, Copy, PartialEq, Eq, Structural)]
pub struct TcpSocketInfo {
    pub id: Index,
    pub local_address: AddressId,
    pub remote_address: AddressId,
}

/// Something that was asked for through a [`LoopHandle`].
#[derive(Debug, PartialEq, Eq)]
pub enum Action {
    NewTimer(Index, TimerWrap),
    RemoveTimer(Index),
    SpawnTask(Index, WorkId, TaskWrap),
    NewTcpConnection(Index, TcpStreamWrap),
    NewTcpWriteRequest(Index, Vec<u8>, CallbackId),
    NewTcpReadStart(Index, CallbackId),
    CloseTcpSocket(Index, CallbackId),
}

/// What an [`Action`] holds.
pub enum ActionView {
    NewTimer(Index, TimerWrap),
    RemoveTimer(Index),
    SpawnTask(Index, WorkId, TaskWrap),
    NewTcpConnection(Index, TcpView),
    NewTcpWriteRequest(Index, Seq<u8>, CallbackId),
    NewTcpReadStart(Index, CallbackId),
    CloseTcpSocket(Index, CallbackId),
}

impl View for Action {
    type V = ActionView;

    open spec fn view(&self) -> ActionView {
        match *self {
            Action::NewTimer(index, timer) => ActionView::NewTimer(index, timer),
            Action::RemoveTimer(index) => ActionView::RemoveTimer(index),
            Action::SpawnTask(index, work, task) => ActionView::SpawnTask(index, work, task),
            Action::NewTcpConnection(index, tcp) => ActionView::NewTcpConnection(index, tcp@),
            Action::NewTcpWriteRequest(index, data, on_write) => ActionView::NewTcpWriteRequest(
                index,
                data@,
                on_write,
            ),
            Action::NewTcpReadStart(index, on_read) => ActionView::NewTcpReadStart(index, on_read),
            Action::CloseTcpSocket(index, on_close) => ActionView::CloseTcpSocket(index, on_close),
        }
    }
}

/// Readiness of a socket.
#[derive(Debug, Clone, Copy, PartialEq, Eq, Structural)]
pub enum TcpEvent {
    /// Socket is (probably) ready for reading.
    Read(Index),
    /// Socket is (probably) ready for writing.
    Write(Index),
}

/// Something that the poll phase has to react to.
#[derive(Debug, Clone, Copy, PartialEq, Eq, Structural)]
pub enum Event {
    Interrupt,
    ThreadPool(Index),
    Network(TcpEvent),
}

/// An action that the driver performs for the loop.
#[derive(Debug, PartialEq, Eq)]
pub enum Command {
    /// Run the callback of a timer.
    TimerCallback(CallbackId),
    /// Run the callback of a finished task on its result.
    TaskCallback(CallbackId),
    /// Run the callback of a connection attempt.
    ConnectionCallback(CallbackId, Index, Result<TcpSocketInfo, ErrorId>),
    /// Run the callback of a write on the number of bytes written.
    WriteCallback(CallbackId, Index, Result<usize, ErrorId>),
    /// Run the callback of a connection on the bytes that were read; none mean
    /// that the other side is done writing.
    ReadCallback(CallbackId, Index, Result<Vec<u8>, ErrorId>),
    /// Run the callback of a closed connection.
    CloseCallback(CallbackId),
    /// Register a socket for polling under a token.
    Register(SocketId, usize, Interest),
    /// Change the interest of a registered socket.
    Reregister(SocketId, usize, Interest),
    /// Hand work to the thread-pool, on behalf of a task.
    Execute(Index, WorkId),
    /// Forget a callback that will not run anymore.
    Release(CallbackId),
    /// Forget a resource that has left the loop, with its socket and callbacks.
    Drop(Wrap),
}

/// What a [`Command`] holds.
pub enum CommandView {
    ReadCallback(CallbackId, Index, Result<Seq<u8>, ErrorId>),
    Drop(WrapView),
    /// Any other command.
    Plain(Command),
}

impl View for Command {
    type V = CommandView;

    open spec fn view(&self) -> CommandView {
        match *self {
            Command::ReadCallback(callback, index, Ok(data)) => CommandView::ReadCallback(
                callback,
                index,
                Ok(data@),
            ),
            Command::ReadCallback(callback, index, Err(error)) => CommandView::ReadCallback(
                callback,
                index,
                Err(error),
            ),
            Command::Drop(wrap) => CommandView::Drop(wrap@),
            other => CommandView::Plain(other),
        }
    }
}

/// What a list of commands holds.
pub open spec fn viewed(commands: Seq<Command>) -> Seq<CommandView> {
    commands.map_values(|command: Command| command@)
}

/// What taking the next action has led to.
#[derive(Debug, PartialEq, Eq)]
pub enum Prepared {
    /// There was no action left.
    Idle,
    /// The next action cannot be performed.
    Stuck,
    /// The action was performed, with these commands.
    Commands(Vec<Command>),
}

/// What a socket that is ready for writing is to be used for.
#[derive(Debug, PartialEq, Eq)]
pub enum SocketTurn {
    /// Nothing but these commands.
    Done(Vec<Command>),
    /// The connection is established: look up the addresses of the socket, and
    /// report it to the callback.
    Connected(SocketId, CallbackId),
    /// Write the bytes, and report to the callback.
    Write(SocketId, Vec<u8>, CallbackId),
}

impl View for SocketTurn {
    type V = SocketTurnView;

    open spec fn view(&self) -> SocketTurnView {
        match *self {
            SocketTurn::Done(commands) => SocketTurnView::Done(viewed(commands@)),
            SocketTurn::Connected(socket, callback) => SocketTurnView::Connected(socket, callback),
            SocketTurn::Write(socket, data, callback) => SocketTurnView::Write(
                socket,
                data@,
                callback,
            ),
        }
    }
}

/// The stages of a tick.
#[derive(Debug, Clone, Copy, PartialEq, Eq, Structural)]
pub enum Stage {
    Prepare,
    Timers,
    Poll,
    Done,
}

/// What a driver has just done for the loop.
#[derive(Debug, Clone, Copy, PartialEq, Eq, Structural)]
pub enum Turn {
    /// What a stage of the tick needs.
    Stage(Stage),
    /// The processing of the event that polling has given.
    Event(Event),
}

impl Turn {
    /// Whether the actions are drained next: at the start of a tick, and wherever
    /// callbacks may have run.
    pub open spec fn performs(self) -> bool {
        match self {
            Turn::Stage(stage) => stage is Prepare || stage is Timers,
            Turn::Event(event) => !(event is Interrupt),
        }
    }
}

/// An event-loop whose resources are told apart by running numbers.
pub struct EventLoop {
    resources: HashMap<Index, Wrap>,
    timer_queue: TimersCollection<Index>,
    pending_tasks: u32,
    handle: LoopHandle,
}

impl View for EventLoop {
    type V = IndexState;

    closed spec fn view(&self) -> IndexState {
        IndexState {
            resources: self.resources@.map_values(|wrap: Wrap| wrap@),
            timer_queue: self.timer_queue@,
            pending_tasks: self.pending_tasks,
            handle: self.handle@,
        }
    }
}

/// The event of a readiness: reading and writing are told apart only where the
/// socket is ready for one of them.
pub open spec fn event_of(readiness: Readiness) -> Option<TcpEvent> {
    match (readiness.readable || readiness.read_closed, readiness.writable) {
        (true, false) => Some(TcpEvent::Read(readiness.token as u32)),
        (false, true) => Some(TcpEvent::Write(readiness.token as u32)),
        _ => None,
    }
}

/// Returns the event that polling is to signal to the loop.
pub fn network_event(readiness: Readiness) -> (event: Option<TcpEvent>)
    ensures
        event == event_of(readiness),
{
    let index: Index = readiness.token as u32;
    match (readiness.readable || readiness.read_closed, readiness.writable) {
        (true, false) => Some(TcpEvent::Read(index)),
        (false, true) => Some(TcpEvent::Write(index)),
        _ => None,
    }
}

impl EventLoop {
    /// Creates a loop with nothing to do.
    pub fn new() -> (event_loop: Self)
        ensures
            event_loop@ == IndexState::start(),
            event_loop@.wf(),
    {
        let event_loop = EventLoop {
            resources: HashMap::new(),
            timer_queue: TimersCollection::new(),
            pending_tasks: 0,
            handle: LoopHandle::new(),
        };
        proof {
            assert(event_loop@ =~= IndexState::start());
            assert(IndexState::start().tasks() =~= Set::empty());
        }
        event_loop
    }

    /// Returns the handle to the event-loop.
    pub fn handle(&mut self) -> (handle: &mut LoopHandle)
        ensures
            handle@ == old(self)@.handle,
            final(self)@ == (IndexState { handle: final(handle)@, ..old(self)@ }),
            old(self)@.wf() && old(self)@.handle.used(final(handle)@) ==> final(self)@.wf(),
    {
        proof {
            assert forall|later: HandleState|
                self@.wf() && #[trigger] self@.handle.used(later) implies (IndexState {
                handle: later,
                ..self@
            }).wf() by {
                lemma_handle_used(self@, later);
            }
        }
        &mut self.handle
    }

    /// Returns true if there is anything left to do.
    pub fn has_pending_events(&self) -> (pending: bool)
        ensures
            pending == self@.pending(),
    {
        let empty = self.resources.is_empty();
        proof {
            assert(self@.resources.dom() =~= self.resources@.dom());
            if empty {
                assert(self@.resources =~= Map::empty());
            }
        }
        !(empty && self.handle.is_idle())
    }

    /// Returns the stage of a tick that follows the one that has just ended.
    pub fn tick(&self, stage: Stage) -> (next: Stage)
        ensures
            next == stage.next(),
    {
        match stage {
            Stage::Prepare => Stage::Timers,
            Stage::Timers => Stage::Poll,
            Stage::Poll | Stage::Done => Stage::Done,
        }
    }

    /// Returns true if the actions are to be drained, in case what was just done
    /// has scheduled new ones.
    pub fn performs_actions(turn: Turn) -> (perform: bool)
        ensures
            perform == turn.performs(),
    {
        match turn {
            Turn::Stage(Stage::Prepare) | Turn::Stage(Stage::Timers) => true,
            Turn::Stage(_) => false,
            Turn::Event(Event::Interrupt) => false,
            Turn::Event(_) => true,
        }
    }

    /// Returns true if an action can be performed.
    fn can_perform(&self, action: &Action) -> (able: bool)
        ensures
            able == self@.performable(action@),
    {
        match action {
            Action::SpawnTask(_, _, _) => self.pending_tasks < u32::MAX,
            Action::NewTcpWriteRequest(index, _, _) | Action::NewTcpReadStart(index, _) => {
                match self.resources.get(index) {
                    Some(Wrap::Tcp(_)) | None => true,
                    _ => false,
                }
            },
            Action::CloseTcpSocket(index, _) => self.resources.contains_key(index),
            _ => true,
        }
    }

    /// Adds a timer, which starts now.
    fn ev_new_timer(&mut self, index: Index, timer: TimerWrap, now: Nanos)
        requires
            now <= MAX_SPAN,
            timer.expires_at <= MAX_SPAN,
        ensures
            final(self)@ == old(self)@.acted(ActionView::NewTimer(index, timer), now).0,
    {
        let time_key = now + timer.expires_at;
        self.resources.insert(index, Wrap::Timer(timer));
        self.timer_queue.insert(time_key, index);
        assert(self@ =~= old(self)@.acted(ActionView::NewTimer(index, timer), now).0);
    }

    /// Removes a resource.
    fn remove(&mut self, index: Index) -> (removed: Option<Wrap>)
        ensures
            final(self)@ == (IndexState {
                resources: old(self)@.resources.remove(index),
                ..old(self)@
            }),
            match removed {
                Some(wrap) => old(self)@.resources.contains_key(index) && wrap@
                    == old(self)@.resources[index],
                None => !old(self)@.resources.contains_key(index),
            },
    {
        let removed = self.resources.remove(&index);
        assert(self@ =~= (IndexState {
            resources: old(self)@.resources.remove(index),
            ..old(self)@
        }));
        removed
    }

    /// Removes a timer.
    fn ev_remove_timer(&mut self, index: Index) -> (commands: Vec<Command>)
        ensures
            (final(self)@, viewed(commands@)) == old(self)@.acted(
                ActionView::RemoveTimer(index),
                0,
            ),
    {
        let mut commands: Vec<Command> = Vec::new();
        if let Some(wrap) = self.remove(index) {
            commands.push(Command::Drop(wrap));
        }
        self.timer_queue.remove(index);
        proof {
            let (after, expected) = old(self)@.acted(ActionView::RemoveTimer(index), 0);
            assert(viewed(commands@) =~= expected);
            assert(self@ =~= after);
        }
        commands
    }

    /// Hands a task to the thread-pool. It is tracked only if it has a callback.
    fn ev_spawn_task(
        &mut self,
        index: Index,
        work: WorkId,
        task_wrap: TaskWrap,
    ) -> (command: Command)
        requires
            old(self)@.pending_tasks < u32::MAX,
        ensures
            (final(self)@, seq![command@]) == old(self)@.acted(
                ActionView::SpawnTask(index, work, task_wrap),
                0,
            ),
    {
        if task_wrap.inner.is_some() {
            self.resources.insert(index, Wrap::Task(task_wrap));
        }
        self.pending_tasks = self.pending_tasks + 1;
        assert(self@ =~= old(self)@.acted(ActionView::SpawnTask(index, work, task_wrap), 0).0);
        Command::Execute(index, work)
    }

    /// Adds a connection.
    fn ev_new_tcp_connection(&mut self, index: Index, tcp_wrap: TcpStreamWrap) -> (command: Command)
        ensures
            (final(self)@, seq![command@]) == old(self)@.acted(
                ActionView::NewTcpConnection(index, tcp_wrap@),
                0,
            ),
    {
        // When we create a new TCP socket connection we have to make sure
        // it's well connected with the remote host.
        let command = Command::Register(tcp_wrap.socket, tcp_wrap.id as usize, Interest::Writable);
        self.resources.insert(index, Wrap::Tcp(tcp_wrap));
        assert(self@ =~= old(self)@.acted(ActionView::NewTcpConnection(index, tcp_wrap@), 0).0);
        command
    }

    /// Queues bytes to be written to a connection.
    fn ev_new_tcp_write_request(
        &mut self,
        index: Index,
        data: Vec<u8>,
        on_write: CallbackId,
    ) -> (command: Command)
        requires
            old(self)@.performable(ActionView::NewTcpWriteRequest(index, data@, on_write)),
        ensures
            (final(self)@, seq![command@]) == old(self)@.acted(
                ActionView::NewTcpWriteRequest(index, data@, on_write),
                0,
            ),
    {
        let ghost expected = self@.acted(
            ActionView::NewTcpWriteRequest(index, data@, on_write),
            0,
        ).0;
        match self.resources.remove(&index) {
            Some(Wrap::Tcp(mut tcp_wrap)) => {
                let ghost before = tcp_wrap@;
                let command = Command::Reregister(tcp_wrap.socket, index as usize, Interest::Both);
                // Push data to socket's write queue.
                tcp_wrap.write_queue.push_back((data, on_write));
                assert(tcp_wrap@.write_queue =~= before.write_queue.push((data@, on_write)));
                self.resources.insert(index, Wrap::Tcp(tcp_wrap));
                assert(self@ =~= expected);
                command
            },
            _ => {
                assert(self@ =~= expected);
                Command::Release(on_write)
            },
        }
    }

    /// Starts reading from a connection.
    fn ev_new_tcp_read_start(&mut self, index: Index, on_read: CallbackId) -> (commands: Vec<
        Command,
    >)
        requires
            old(self)@.performable(ActionView::NewTcpReadStart(index, on_read)),
        ensures
            (final(self)@, viewed(commands@)) == old(self)@.acted(
                ActionView::NewTcpReadStart(index, on_read),
                0,
            ),
    {
        let ghost expected = self@.acted(ActionView::NewTcpReadStart(index, on_read), 0);
        let mut commands: Vec<Command> = Vec::new();
        match self.resources.remove(&index) {
            Some(Wrap::Tcp(mut tcp_wrap)) => {
                // Register the on_read callback.
                if let Some(replaced) = tcp_wrap.on_read {
                    commands.push(Command::Release(replaced));
                }
                tcp_wrap.on_read = Some(on_read);
                let interest = if tcp_wrap.write_queue.len() == 0 {
                    Interest::Readable
                } else {
                    Interest::Both
                };
                commands.push(Command::Reregister(tcp_wrap.socket, index as usize, interest));
                self.resources.insert(index, Wrap::Tcp(tcp_wrap));
            },
            _ => {
                commands.push(Command::Release(on_read));
            },
        }
        assert(viewed(commands@) =~= expected.1);
        assert(self@ =~= expected.0);
        commands
    }

    /// Closes a connection.
    fn ev_close_tcp_socket(&mut self, index: Index, on_close: CallbackId) -> (commands: Vec<
        Command,
    >)
        requires
            old(self)@.performable(ActionView::CloseTcpSocket(index, on_close)),
        ensures
            (final(self)@, viewed(commands@)) == old(self)@.acted(
                ActionView::CloseTcpSocket(index, on_close),
                0,
            ),
    {
        let mut commands: Vec<Command> = Vec::new();
        // Remove resource from the event-loop.
        if let Some(wrap) = self.remove(index) {
            commands.push(Command::Drop(wrap));
        }
        // Run on_close callback
        commands.push(Command::CloseCallback(on_close));
        proof {
            let expected = old(self)@.acted(ActionView::CloseTcpSocket(index, on_close), 0);
            assert(viewed(commands@) =~= expected.1);
            assert(self@ =~= expected.0);
        }
        commands
    }

    /// Performs one action.
    fn perform(&mut self, action: Action, now: Nanos) -> (commands: Vec<Command>)
        requires
            now <= MAX_SPAN,
            old(self)@.admits(action@),
        ensures
            (final(self)@, viewed(commands@)) == old(self)@.acted(action@, now),
    {
        let ghost view = action@;
        let mut commands: Vec<Command> = Vec::new();
        match action {
            Action::NewTimer(index, timer) => {
                self.ev_new_timer(index, timer, now);
            },
            Action::RemoveTimer(index) => {
                commands = self.ev_remove_timer(index);
            },
            Action::SpawnTask(index, work, task_wrap) => {
                commands.push(self.ev_spawn_task(index, work, task_wrap));
            },
            Action::NewTcpConnection(index, tcp_wrap) => {
                commands.push(self.ev_new_tcp_connection(index, tcp_wrap));
            },
            Action::NewTcpWriteRequest(index, data, on_write) => {
                commands.push(self.ev_new_tcp_write_request(index, data, on_write));
            },
            Action::NewTcpReadStart(index, on_read) => {
                commands = self.ev_new_tcp_read_start(index, on_read);
            },
            Action::CloseTcpSocket(index, on_close) => {
                commands = self.ev_close_tcp_socket(index, on_close);
            },
        }
        assert(viewed(commands@) =~= old(self)@.acted(view, now).1);
        commands
    }

    /// Performs the next action, at the given time. To drain the queue, call
    /// this until there is no action left.
    pub fn prepare(&mut self, now: Nanos) -> (prepared: Prepared)
        requires
            old(self)@.wf(),
            now <= MAX_SPAN,
        ensures
            final(self)@.wf(),
            match prepared {
                Prepared::Idle => old(self)@.handle.actions.len() == 0 && final(self)@
                    == old(self)@,
                Prepared::Stuck => old(self)@.handle.actions.len() > 0 && !old(self)@.performable(
                    old(self)@.handle.actions[0],
                ) && final(self)@ == old(self)@,
                Prepared::Commands(commands) => old(self)@.handle.actions.len() > 0
                    && old(self)@.performable(old(self)@.handle.actions[0]) && (
                    final(self)@,
                    viewed(commands@),
                ) == old(self)@.taken().acted(old(self)@.handle.actions[0], now),
            },
    {
        let able = match self.handle.peek() {
            Some(action) => self.can_perform(action),
            None => {
                return Prepared::Idle;
            },
        };
        if !able {
            return Prepared::Stuck;
        }
        match self.handle.receive() {
            Some(action) => {
                proof {
                    lemma_taken(old(self)@);
                    assert(self@ =~= old(self)@.taken());
                    lemma_acted(old(self)@.taken(), action@, now);
                }
                Prepared::Commands(self.perform(action, now))
            },
            None => Prepared::Idle,
        }
    }

    /// Takes the timers that have expired off the queue, the earliest first.
    pub fn run_timers(&mut self, now: Nanos) -> (due: Vec<Index>)
        requires
            old(self)@.wf(),
        ensures
            final(self)@ == old(self)@.expired(now),
            due@ == expired_before(old(self)@.timer_queue, now),
            final(self)@.wf(),
            forall|i: int| 0 <= i < due@.len() ==> final(self)@.is_timer(#[trigger] due@[i]),
    {
        let due = self.timer_queue.split_expired_timers(now);
        proof {
            lemma_due(old(self)@, now);
            assert(self@ =~= old(self)@.expired(now));
        }
        due
    }

    /// Returns the callback to run for a timer that has expired, unless it was
    /// removed.
    pub fn run_timer(&self, index: Index) -> (command: Option<Command>)
        requires
            self@.is_timer(index),
        ensures
            match command {
                Some(command) => self@.resources.contains_key(index) && command
                    == Command::TimerCallback(self@.resources[index]->Timer_0.cb),
                None => !self@.resources.contains_key(index),
            },
    {
        match self.resources.get(&index) {
            Some(Wrap::Timer(timer)) => {
                assert(self@.resources[index] == WrapView::Timer(*timer));
                Some(Command::TimerCallback(timer.cb))
            },
            _ => None,
        }
    }

    /// Schedules a timer anew whose callback has run, if it is repeatable, and
    /// drops it otherwise. The time is that after the callback.
    pub fn finish_timer(&mut self, index: Index, now: Nanos) -> (commands: Vec<Command>)
        requires
            old(self)@.wf(),
            old(self)@.is_timer(index),
            old(self)@.resources.contains_key(index),
            now <= MAX_SPAN,
        ensures
            (final(self)@, viewed(commands@)) == old(self)@.timer_finished(index, now),
            final(self)@.wf(),
    {
        let mut commands: Vec<Command> = Vec::new();
        let timer = match self.resources.get(&index) {
            Some(Wrap::Timer(timer)) => *timer,
            _ => TimerWrap { cb: 0, expires_at: 0, repeat: false },
        };
        assert(self@.resources[index] == WrapView::Timer(timer));
        // If the timer is repeatable reschedule it, otherwise drop it.
        if timer.repeat {
            assert(self@.resources[index]->Timer_0.expires_at <= MAX_SPAN);
            let time_key = now + timer.expires_at;
            self.timer_queue.insert(time_key, index);
            proof {
                lemma_timer_scheduled(old(self)@, index, time_key);
            }
        } else {
            if let Some(wrap) = self.remove(index) {
                commands.push(Command::Drop(wrap));
            }
            proof {
                lemma_fewer_resources(old(self)@, index);
            }
        }
        assert(viewed(commands@) =~= old(self)@.timer_finished(index, now).1);
        assert(self@ =~= old(self)@.timer_finished(index, now).0);
        commands
    }

    /// Returns how long the poll phase should wait, based on what resources the
    /// event-loop is currently running.
    pub fn run_poll(&self, now: Nanos) -> (timeout: Nanos)
        ensures
            timeout == self@.poll_timeout(now),
    {
        match self.timer_queue.next() {
            Some((at, _)) => {
                assert(is_earliest(self@.timer_queue, at));
                if at > now {
                    at - now
                } else {
                    0
                }
            },
            None => {
                assert forall|at: Nanos| !is_earliest(self@.timer_queue, at) by {
                    assert(!self@.timer_queue.dom().contains(at));
                }
                if self.pending_tasks > 0 {
                    MAX_SPAN
                } else {
                    0
                }
            },
        }
    }

    /// Returns true if the loop can take an event. The error state of the
    /// socket matters if the event is about writing.
    pub fn accepts(&self, event: Event, status: SocketStatus) -> (accepted: bool)
        ensures
            accepted == self@.accepts(event, status),
    {
        match event {
            Event::Interrupt => true,
            Event::ThreadPool(index) => match self.resources.get(&index) {
                Some(Wrap::Task(_)) | None => true,
                _ => false,
            },
            Event::Network(TcpEvent::Write(index)) => match self.resources.get(&index) {
                Some(Wrap::Tcp(tcp_wrap)) => {
                    let healthy = match status {
                        SocketStatus::Healthy => true,
                        SocketStatus::Failed(_) => false,
                    };
                    healthy || tcp_wrap.on_connection.is_some()
                },
                None => true,
                _ => false,
            },
            Event::Network(TcpEvent::Read(index)) => match self.resources.get(&index) {
                Some(Wrap::Tcp(tcp_wrap)) => tcp_wrap.on_read.is_some(),
                None => true,
                _ => false,
            },
        }
    }

    /// Runs the callback of a finished task. A task that is not tracked is
    /// ignored.
    pub fn run_task_callback(&mut self, index: Index) -> (commands: Vec<Command>)
        requires
            old(self)@.wf(),
            old(self)@.accepts(Event::ThreadPool(index), SocketStatus::Healthy),
        ensures
            (final(self)@, viewed(commands@)) == old(self)@.task_finished(index),
            final(self)@.wf(),
    {
        let mut commands: Vec<Command> = Vec::new();
        proof {
            lemma_fewer_resources(old(self)@, index);
        }
        if let Some(Wrap::Task(task_wrap)) = self.remove(index) {
            if let Some(callback) = task_wrap.inner {
                commands.push(Command::TaskCallback(callback));
            }
            proof {
                assert(old(self)@.tasks().contains(index));
                assert(old(self)@.tasks().len() > 0);
            }
            self.pending_tasks = self.pending_tasks - 1;
        }
        proof {
            let expected = old(self)@.task_finished(index);
            assert(self@ =~= expected.0);
            assert(viewed(commands@) =~= expected.1);
            lemma_started_alike(
                IndexState { resources: expected.0.resources, ..old(self)@ },
                expected.0,
            );
        }
        commands
    }

    /// Reacts to a socket that is ready for writing, given its error state.
    pub fn run_tcp_socket_write(&mut self, index: Index, status: SocketStatus) -> (turn: SocketTurn)
        requires
            old(self)@.wf(),
            old(self)@.accepts(Event::Network(TcpEvent::Write(index)), status),
        ensures
            (final(self)@, turn@) == old(self)@.write_turn(index, status),
            final(self)@.wf(),
    {
        let ghost expected = self@.write_turn(index, status);
        let mut commands: Vec<Command> = Vec::new();

        // Try to get the resource.
        let mut tcp_wrap = match self.resources.remove(&index) {
            Some(Wrap::Tcp(tcp_wrap)) => tcp_wrap,
            _ => {
                assert(self@ =~= expected.0);
                assert(viewed(commands@) =~= Seq::empty());
                return SocketTurn::Done(commands);
            },
        };
        let ghost before = tcp_wrap@;

        // If we hit an error while connecting return that error.
        if let SocketStatus::Failed(error) = status {
            // Run on_connection callback.
            if let Some(on_connection) = tcp_wrap.on_connection.take() {
                commands.push(Command::ConnectionCallback(on_connection, index, Err(error)));
            }
            commands.push(Command::Drop(Wrap::Tcp(tcp_wrap)));
            proof {
                lemma_fewer_resources(old(self)@, index);
                assert(self@ =~= expected.0);
                assert(viewed(commands@) =~= expected.1->Done_0);
            }
            return SocketTurn::Done(commands);
        }
        // Note: If the on_connection callback is None it means that in some
        // previous iteration we made sure the TCP socket is well connected
        // with the remote host.

        if let Some(on_connection) = tcp_wrap.on_connection.take() {
            let socket = tcp_wrap.socket;
            self.resources.insert(index, Wrap::Tcp(tcp_wrap));
            proof {
                lemma_replaced(old(self)@, index, expected.0.resources[index]);
                assert(self@ =~= expected.0);
            }
            return SocketTurn::Connected(socket, on_connection);
        }
        // Connection is OK, let's write some bytes...

        let socket = tcp_wrap.socket;
        match tcp_wrap.write_queue.pop_front() {
            Some((data, on_write)) => {
                assert(tcp_wrap@.write_queue =~= before.write_queue.drop_first());
                self.resources.insert(index, Wrap::Tcp(tcp_wrap));
                proof {
                    lemma_replaced(old(self)@, index, expected.0.resources[index]);
                    assert(self@ =~= expected.0);
                }
                SocketTurn::Write(socket, data, on_write)
            },
            None => {
                assert(tcp_wrap@.write_queue =~= before.write_queue);
                self.resources.insert(index, Wrap::Tcp(tcp_wrap));
                assert(self@ =~= expected.0);
                assert(viewed(commands@) =~= Seq::empty());
                SocketTurn::Done(commands)
            },
        }
    }

    /// Reports an established connection to its callback, and polls the socket
    /// for reading from then on.
    pub fn connected(
        index: Index,
        socket: SocketId,
        on_connection: CallbackId,
        local_address: AddressId,
        remote_address: AddressId,
    ) -> (commands: Vec<Command>)
        ensures
            commands@ == seq![
                Command::ConnectionCallback(
                    on_connection,
                    index,
                    Ok(TcpSocketInfo { id: index, local_address, remote_address }),
                ),
                Command::Reregister(socket, index as usize, Interest::Readable),
            ],
    {
        let mut commands: Vec<Command> = Vec::new();
        let info = TcpSocketInfo { id: index, local_address, remote_address };
        commands.push(Command::ConnectionCallback(on_connection, index, Ok(info)));
        commands.push(Command::Reregister(socket, index as usize, Interest::Readable));
        commands
    }

    /// Reports the outcome of a write to its callback, whatever part of the
    /// bytes was written.
    pub fn written(index: Index, on_write: CallbackId, outcome: Result<usize, ErrorId>) -> (command:
        Command)
        ensures
            command == Command::WriteCallback(on_write, index, outcome),
    {
        Command::WriteCallback(on_write, index, outcome)
    }

    /// Returns the socket to read from.
    pub fn read_socket(&self, index: Index) -> (socket: Option<SocketId>)
        requires
            self@.accepts(Event::Network(TcpEvent::Read(index)), SocketStatus::Healthy),
        ensures
            socket == (if self@.resources.contains_key(index) {
                Some(self@.resources[index]->Tcp_0.socket)
            } else {
                None
            }),
    {
        match self.resources.get(&index) {
            Some(Wrap::Tcp(tcp_wrap)) => {
                assert(self@.resources[index] == WrapView::Tcp(tcp_wrap@));
                Some(tcp_wrap.socket)
            },
            _ => None,
        }
    }

    /// Reacts to a series of reads from a socket that has ended.
    pub fn run_tcp_socket_read(&self, index: Index, buffer: ReadBuffer) -> (commands: Vec<Command>)
        requires
            self@.accepts(Event::Network(TcpEvent::Read(index)), SocketStatus::Healthy),
        ensures
            viewed(commands@) == self@.read_commands(index, buffer@),
    {
        let mut commands: Vec<Command> = Vec::new();
        if let Some(Wrap::Tcp(tcp_wrap)) = self.resources.get(&index) {
            assert(self@.resources[index] == WrapView::Tcp(tcp_wrap@));
            if let Some(on_read) = tcp_wrap.on_read {
                // Check if we had any errors while reading.
                match buffer.error {
                    Some(error) => {
                        commands.push(Command::ReadCallback(on_read, index, Err(error)));
                    },
                    // The socket was not ready after all.
                    None if buffer.data.len() == 0 && !buffer.eof => {},
                    None => {
                        commands.push(Command::ReadCallback(on_read, index, Ok(buffer.data)));
                    },
                }
            }
        }
        assert(viewed(commands@) =~= self@.read_commands(index, buffer@));
        commands
    }
}

} // verus!
