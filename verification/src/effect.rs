//! What the loop asks its driver to do.

use crate::check::CheckHandle;
use crate::fs::{FsWatcherHandle, WatchMode};
use crate::fs_event::FsEventHandle;
use crate::resource::{
    CallbackId, ChannelId, ErrorId, PathId, Resource, ResourceId, ResourceView, SocketId, WorkId,
};
use crate::signals::SignalHandle;
use crate::tcp_listener::TcpListenerHandle;
use crate::tcp_stream::TcpStreamHandle;
use crate::tty::TtyHandle;
use vstd::prelude::*;

verus! {

/// The readiness that a socket is polled for.
#[derive(Debug, Clone, Copy, PartialEq, Eq, Structural)]
pub enum Interest {
    Readable,
    Writable,
    /// Readable and writable.
    Both,
}

/// Why an operation has failed.
#[derive(Debug, Clone, Copy, PartialEq, Eq, Structural)]
pub enum Failure {
    /// The error that the driver has reported under this number.
    Reported(ErrorId),
    /// The socket took fewer bytes than it was given.
    ShortWrite,
}

/// An action that the driver performs for the loop. The actions of one call are
/// performed in the order they are returned.
#[derive(Debug, PartialEq, Eq)]
pub enum Effect {
    /// Run the callback of a timer.
    TimerCallback(CallbackId),
    /// Run the callback of a check resource.
    CheckCallback(CallbackId, CheckHandle),
    /// Run the callback of a finished task on its output.
    TaskCallback(CallbackId),
    /// Run the callback of a signal listener.
    SignalCallback(CallbackId, SignalHandle, i32),
    /// Do what the system does on a signal that nobody listens to.
    EmulateDefault(i32),
    /// Ask the system to report a signal.
    WatchSignal(i32),
    /// Run the callback of a connection attempt.
    ConnectionCallback(CallbackId, Result<TcpStreamHandle, Failure>),
    /// Run the callback of a listener on a new connection.
    AcceptCallback(CallbackId, TcpListenerHandle, Result<TcpStreamHandle, Failure>),
    /// Run the callback of a stream on bytes that were read; none mean that the
    /// other side is done writing.
    ReadCallback(CallbackId, TcpStreamHandle, Result<Vec<u8>, Failure>),
    /// Run the callback of a write on the number of bytes written.
    WriteCallback(CallbackId, TcpStreamHandle, Result<usize, Failure>),
    /// Run the callback of a closed resource.
    CloseCallback(CallbackId),
    /// Run the callback of a file-system event resource.
    FsEventCallback(CallbackId, FsEventHandle),
    /// Run the callback of a file-system watcher.
    FsWatcherCallback(CallbackId, FsWatcherHandle),
    /// Run the callback of a terminal reader.
    TtyCallback(CallbackId, TtyHandle),
    /// Shut down the write side of a socket.
    Shutdown(SocketId),
    /// Register a socket for polling under a token.
    Register(SocketId, usize, Interest),
    /// Change the token or the interest of a registered socket.
    Reregister(SocketId, usize, Interest),
    /// Stop polling a socket.
    Deregister(SocketId),
    /// Hand work to the thread-pool, on behalf of a task.
    SpawnWork(ResourceId, WorkId, ChannelId),
    /// Start watching a path, on behalf of a resource.
    StartWatch(ResourceId, PathId, WatchMode),
    /// Start reading from the terminal, on behalf of a resource.
    StartTtyRead(ResourceId, ChannelId),
    /// Put the terminal into raw mode.
    EnableRawMode,
    /// Restore the terminal to its original settings.
    DisableRawMode,
    /// Forget a callback that will not run anymore.
    Release(CallbackId),
    /// Forget a resource that has left the loop, with its sockets, callbacks
    /// and watchers.
    Drop(Resource),
}

/// What an [`Effect`] holds.
pub enum EffectView {
    ReadCallback(CallbackId, TcpStreamHandle, Result<Seq<u8>, Failure>),
    Drop(ResourceView),
    /// Any other effect.
    Plain(Effect),
}

impl View for Effect {
    type V = EffectView;

    open spec fn view(&self) -> EffectView {
        match *self {
            Effect::ReadCallback(callback, stream, Ok(data)) => EffectView::ReadCallback(
                callback,
                stream,
                Ok(data@),
            ),
            Effect::ReadCallback(callback, stream, Err(failure)) => EffectView::ReadCallback(
                callback,
                stream,
                Err(failure),
            ),
            Effect::Drop(resource) => EffectView::Drop(resource@),
            effect => EffectView::Plain(effect),
        }
    }
}

/// What a list of effects holds.
pub open spec fn viewed(effects: Seq<Effect>) -> Seq<EffectView> {
    effects.map_values(|effect: Effect| effect@)
}

/// The effects of two lists, one after the other.
pub(crate) proof fn lemma_viewed_concat(first: Seq<Effect>, second: Seq<Effect>)
    ensures
        viewed(first + second) == viewed(first) + viewed(second),
{
    assert(viewed(first + second) =~= viewed(first) + viewed(second));
}

/// The effects of a list with one more at its end.
pub(crate) proof fn lemma_viewed_push(effects: Seq<Effect>, effect: Effect)
    ensures
        viewed(effects.push(effect)) == viewed(effects).push(effect@),
{
    assert(viewed(effects.push(effect)) =~= viewed(effects).push(effect@));
}

} // verus!
