//! The handle through which work is scheduled in an index loop.

use crate::index_loop::laws::{
    action_uses_handle, idle_use_of_handle, index_uses_handle, start_uses_handle,
};
use crate::index_loop::state::HandleState;
use crate::index_loop::{Action, ActionView, Index, TaskWrap, TcpStreamWrap, TcpView, TimerWrap};
use crate::resource::{CallbackId, ErrorId, SocketId, WorkId};
use crate::timers::Nanos;
use std::collections::VecDeque;
use vstd::prelude::*;

verus! {

/// How many nanoseconds a millisecond has.
pub const MILLISECOND: Nanos = 1_000_000;

/// The outcome of an attempt to connect to an address.
#[derive(Debug, Clone, Copy, PartialEq, Eq, Structural)]
pub enum ConnectOutcome {
    /// The address could not be parsed.
    InvalidAddress(ErrorId),
    /// The connection could not be started.
    Failed(ErrorId),
    /// The socket of a connection that was started.
    Started(SocketId),
}

/// Schedules work in an index loop.
pub struct LoopHandle {
    index: Index,
    actions: VecDeque<Action>,
    actions_queue_empty: bool,
}

impl View for LoopHandle {
    type V = HandleState;

    closed spec fn view(&self) -> HandleState {
        HandleState {
            index: self.index,
            actions: self.actions@.map_values(|action: Action| action@),
            queue_empty: self.actions_queue_empty,
        }
    }
}

impl LoopHandle {
    /// Creates a handle with nothing scheduled.
    pub(crate) fn new() -> (handle: Self)
        ensures
            handle@ == HandleState::start(),
    {
        let handle = LoopHandle { index: 1, actions: VecDeque::new(), actions_queue_empty: true };
        assert(handle@ =~= HandleState::start());
        handle
    }

    /// Returns true if no action waits to be performed.
    pub fn is_idle(&self) -> (idle: bool)
        ensures
            idle == self@.queue_empty,
    {
        self.actions_queue_empty
    }

    /// Returns the next action.
    pub(crate) fn peek(&self) -> (action: Option<&Action>)
        ensures
            match action {
                Some(action) => self@.actions.len() > 0 && action@ == self@.actions[0],
                None => self@.actions.len() == 0,
            },
    {
        if self.actions.len() == 0 {
            None
        } else {
            Some(&self.actions[0])
        }
    }

    /// Takes the next action off the queue.
    pub(crate) fn receive(&mut self) -> (action: Option<Action>)
        ensures
            match action {
                Some(action) => old(self)@.actions.len() > 0 && action@ == old(self)@.actions[0]
                    && final(self)@ == old(self)@.taken(),
                None => old(self)@.actions.len() == 0 && final(self)@ == old(self)@,
            },
    {
        let action = self.actions.pop_front();
        if action.is_some() {
            self.actions_queue_empty = self.actions.len() == 0;
        }
        proof {
            if action is Some {
                assert(self@.actions =~= old(self)@.actions.drop_first());
            } else {
                assert(self@.actions =~= old(self)@.actions);
            }
        }
        action
    }

    /// Queues an action.
    fn send(&mut self, action: Action)
        ensures
            final(self)@ == old(self)@.queued(action@),
            action@.starts() is None ==> old(self)@.used(final(self)@),
    {
        proof {
            if action@.starts() is None {
                action_uses_handle(old(self)@, action@);
            }
        }
        self.actions.push_back(action);
        self.actions_queue_empty = false;
        assert(self@.actions =~= old(self)@.actions.push(action@));
    }

    /// Returns true if there is an index left to give.
    pub fn has_room(&self) -> (room: bool)
        ensures
            room == (self@.index < u32::MAX),
    {
        self.index < u32::MAX
    }

    /// Returns the next available resource index.
    pub fn index(&mut self) -> (index: Index)
        requires
            old(self)@.index < u32::MAX,
        ensures
            index == old(self)@.index,
            final(self)@ == old(self)@.indexed(),
            old(self)@.used(final(self)@),
    {
        proof {
            index_uses_handle(old(self)@);
        }
        let index = self.index;
        self.index = index + 1;
        index
    }

    /// Schedules a new timer to the event-loop. The delay is in milliseconds.
    pub fn timer(&mut self, delay: u64, repeat: bool, cb: CallbackId) -> (index: Index)
        requires
            old(self)@.index < u32::MAX,
        ensures
            index == old(self)@.index,
            final(self)@ == old(self)@.indexed().queued(
                ActionView::NewTimer(
                    index,
                    TimerWrap { cb, expires_at: (delay * MILLISECOND) as u128, repeat },
                ),
            ),
            old(self)@.used(final(self)@),
    {
        let index = self.index();
        assert(delay * MILLISECOND <= u64::MAX * 1_000_000) by (nonlinear_arith)
            requires
                delay <= u64::MAX,
                MILLISECOND == 1_000_000,
        ;
        let timer = TimerWrap { cb, expires_at: delay as u128 * MILLISECOND, repeat };
        let action = Action::NewTimer(index, timer);
        proof {
            start_uses_handle(old(self)@, action@);
        }
        self.send(action);
        index
    }

    /// Removes a scheduled timer from the event-loop.
    pub fn remove_timer(&mut self, index: Index)
        ensures
            final(self)@ == old(self)@.queued(ActionView::RemoveTimer(index)),
            old(self)@.used(final(self)@),
    {
        self.send(Action::RemoveTimer(index));
    }

    /// Spawns a new task without blocking the main thread.
    pub fn spawn(&mut self, task: WorkId, task_cb: Option<CallbackId>) -> (index: Index)
        requires
            old(self)@.index < u32::MAX,
        ensures
            index == old(self)@.index,
            final(self)@ == old(self)@.indexed().queued(
                ActionView::SpawnTask(index, task, TaskWrap { inner: task_cb }),
            ),
            old(self)@.used(final(self)@),
    {
        let index = self.index();
        let action = Action::SpawnTask(index, task, TaskWrap { inner: task_cb });
        proof {
            start_uses_handle(old(self)@, action@);
        }
        self.send(action);
        index
    }

    /// Takes up a new TCP stream that was issued a non-blocking connect. An
    /// attempt that could not be started has used up an index, unless it was for
    /// want of an address.
    pub fn tcp_connect(
        &mut self,
        connect: ConnectOutcome,
        on_connection: CallbackId,
    ) -> (res: Result<Index, ErrorId>)
        requires
            connect !is InvalidAddress ==> old(self)@.index < u32::MAX,
        ensures
            match connect {
                ConnectOutcome::InvalidAddress(error) => res == Err::<Index, ErrorId>(error)
                    && final(self)@ == old(self)@,
                ConnectOutcome::Failed(error) => res == Err::<Index, ErrorId>(error)
                    && final(self)@ == old(self)@.indexed(),
                ConnectOutcome::Started(socket) => res == Ok::<Index, ErrorId>(old(self)@.index)
                    && final(self)@ == old(self)@.indexed().queued(
                    ActionView::NewTcpConnection(
                        old(self)@.index,
                        TcpView {
                            id: old(self)@.index,
                            socket,
                            on_connection: Some(on_connection),
                            on_read: None,
                            write_queue: Seq::empty(),
                        },
                    ),
                ),
            },
            old(self)@.used(final(self)@),
    {
        match connect {
            ConnectOutcome::InvalidAddress(error) => {
                proof {
                    idle_use_of_handle(old(self)@);
                }
                Err(error)
            },
            ConnectOutcome::Failed(error) => {
                self.index();
                Err(error)
            },
            ConnectOutcome::Started(socket) => {
                let index = self.index();
                let stream = TcpStreamWrap {
                    id: index,
                    socket,
                    on_connection: Some(on_connection),
                    on_read: None,
                    write_queue: VecDeque::new(),
                };
                assert(stream@.write_queue =~= Seq::empty());
                let action = Action::NewTcpConnection(index, stream);
                proof {
                    start_uses_handle(old(self)@, action@);
                }
                self.send(action);
                Ok(index)
            },
        }
    }

    /// Writes bytes to an open TCP socket.
    pub fn tcp_write(&mut self, index: Index, data: Vec<u8>, on_write: CallbackId)
        ensures
            final(self)@ == old(self)@.queued(
                ActionView::NewTcpWriteRequest(index, data@, on_write),
            ),
            old(self)@.used(final(self)@),
    {
        self.send(Action::NewTcpWriteRequest(index, data, on_write));
    }

    /// Starts reading from an open socket.
    pub fn tcp_read_start(&mut self, index: Index, on_read: CallbackId)
        ensures
            final(self)@ == old(self)@.queued(ActionView::NewTcpReadStart(index, on_read)),
            old(self)@.used(final(self)@),
    {
        self.send(Action::NewTcpReadStart(index, on_read));
    }

    /// Closes an open TCP socket.
    pub fn tcp_close(&mut self, index: Index, on_close: CallbackId)
        ensures
            final(self)@ == old(self)@.queued(ActionView::CloseTcpSocket(index, on_close)),
            old(self)@.used(final(self)@),
    {
        self.send(Action::CloseTcpSocket(index, on_close));
    }
}

} // verus!
