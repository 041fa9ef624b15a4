//! TCP listeners.

use crate::effect::{Effect, Failure};
use crate::event_loop::LoopHandle;
use crate::event_loop::RequestView;
use crate::resource::{
    CallbackId, Downcast, ErrorId, Resource, ResourceKind, ResourceView, SharedId, SocketId,
};
use crate::tcp_stream::{StreamView, TcpStream, TcpStreamHandle};
use vstd::prelude::*;

verus! {

/// The data required for a tcp listener resource.
#[derive(Debug, Clone, Copy, PartialEq, Eq, Structural)]
pub struct TcpListener {
    pub id: SharedId,
    pub socket: SocketId,
    pub on_connection: CallbackId,
    pub on_close: Option<CallbackId>,
}

/// The outcome of one attempt to accept a connection.
#[derive(Debug, Clone, Copy, PartialEq, Eq, Structural)]
pub enum AcceptOutcome {
    /// The socket of a new connection.
    Accepted(SocketId),
    /// No more incoming connections are queued.
    WouldBlock,
    /// The attempt has failed.
    Failed(ErrorId),
}

/// What one attempt to accept a connection leads to.
#[derive(Debug, PartialEq, Eq)]
pub struct AcceptStep {
    pub effects: Vec<Effect>,
    /// The stream of the new connection.
    pub client: Option<TcpStream>,
    /// Whether to try to accept another connection.
    pub more: bool,
}

/// The stream of a new connection.
pub open spec fn accepted_stream(id: SharedId, socket: SocketId) -> StreamView {
    StreamView {
        id,
        socket,
        on_connection: None,
        on_read: None,
        on_close: None,
        write_queue: Seq::empty(),
    }
}

impl TcpListener {
    pub open spec fn spec_handle(self) -> TcpListenerHandle {
        TcpListenerHandle { id: self.id }
    }

    /// Returns a handle to the tcp listener resource.
    pub fn handle(&self) -> (handle: TcpListenerHandle)
        ensures
            handle == self.spec_handle(),
    {
        TcpListenerHandle { id: self.id }
    }

    /// Reacts to one attempt to accept an available connection. A new connection
    /// gets a reference of its own from `handle`.
    pub fn accept(&self, handle: &mut LoopHandle, outcome: AcceptOutcome) -> (step: AcceptStep)
        requires
            outcome is Accepted ==> old(handle)@.next_id < u64::MAX,
        ensures
            match outcome {
                AcceptOutcome::Accepted(socket) => {
                    &&& final(handle)@ == old(handle)@.referenced()
                    &&& step.effects@ == seq![
                        Effect::AcceptCallback(
                            self.on_connection,
                            self.spec_handle(),
                            Ok(TcpStreamHandle { id: old(handle)@.next_id, socket }),
                        ),
                    ]
                    &&& step.client is Some
                    &&& step.client->0@ == accepted_stream(old(handle)@.next_id, socket)
                    &&& step.more
                },
                AcceptOutcome::WouldBlock => {
                    &&& final(handle)@ == old(handle)@
                    &&& step.effects@ == Seq::<Effect>::empty()
                    &&& step.client is None
                    &&& !step.more
                },
                AcceptOutcome::Failed(error) => {
                    &&& final(handle)@ == old(handle)@
                    &&& step.effects@ == seq![
                        Effect::AcceptCallback(
                            self.on_connection,
                            self.spec_handle(),
                            Err(Failure::Reported(error)),
                        ),
                    ]
                    &&& step.client is None
                    &&& !step.more
                },
            },
    {
        let mut effects: Vec<Effect> = Vec::new();
        match outcome {
            AcceptOutcome::Accepted(socket) => {
                let stream = TcpStream::new(handle.new_id(), socket, None);
                effects.push(
                    Effect::AcceptCallback(self.on_connection, self.handle(), Ok(stream.handle())),
                );
                AcceptStep { effects, client: Some(stream), more: true }
            },
            // If we get a "WouldBlock" we know our listener has no more incoming
            // connections queued, so we can return to polling and wait for some more.
            AcceptOutcome::WouldBlock => AcceptStep { effects, client: None, more: false },
            AcceptOutcome::Failed(error) => {
                let failure = Failure::Reported(error);
                effects.push(
                    Effect::AcceptCallback(self.on_connection, self.handle(), Err(failure)),
                );
                AcceptStep { effects, client: None, more: false }
            },
        }
    }
}

impl Downcast for TcpListener {
    open spec fn of_kind() -> ResourceKind {
        ResourceKind::TcpListener
    }

    open spec fn as_resource(&self) -> ResourceView {
        ResourceView::TcpListener(*self)
    }

    fn downcast_ref(resource: &Resource) -> (inner: Option<&Self>) {
        match resource {
            Resource::TcpListener(listener) => Some(listener),
            _ => None,
        }
    }

    fn downcast_mut(resource: &mut Resource) -> (inner: Option<&mut Self>) {
        match resource {
            Resource::TcpListener(listener) => Some(listener),
            _ => None,
        }
    }
}

/// A reference like struct to an active tcp listener.
#[derive(Debug, Clone, Copy, PartialEq, Eq, Structural)]
pub struct TcpListenerHandle {
    /// A shared reference to the listener.
    pub id: SharedId,
}

impl TcpListenerHandle {
    /// Stops the server from accepting new tcp connections.
    pub fn shutdown(self, handle: &mut LoopHandle, callback: CallbackId)
        ensures
            final(handle)@ == old(handle)@.queued(RequestView::TcpListenStop(self.id, callback)),
            old(handle)@.used(final(handle)@),
    {
        handle.tcp_stop(self.id, callback);
    }
}

} // verus!
