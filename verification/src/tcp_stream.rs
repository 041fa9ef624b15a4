//! TCP connections: what to do with what a ready socket gives and takes.

use crate::effect::{viewed, Effect, EffectView, Failure, Interest};
use crate::event_loop::LoopHandle;
use crate::event_loop::RequestView;
use crate::resource::{
    token, token_of, CallbackId, Downcast, ErrorId, Resource, ResourceId, ResourceKind,
    ResourceView, SharedId, SocketId,
};
use std::collections::VecDeque;
use vstd::prelude::*;

verus! {

/// How many bytes are read from a socket in one go.
pub const READ_BUFFER_SIZE: usize = 4096;

/// Indicates the kind of readiness in the socket.
#[derive(Debug, Clone, Copy, PartialEq, Eq, Structural)]
pub enum TcpEventKind {
    /// Socket is ready for reading.
    Read(usize),
    /// Socket is ready for writing.
    Write(usize),
}

/// The data required for a tcp connection resource.
#[derive(Debug, PartialEq, Eq)]
pub struct TcpStream {
    pub id: SharedId,
    pub socket: SocketId,
    pub on_connection: Option<CallbackId>,
    pub on_read: Option<CallbackId>,
    pub on_close: Option<CallbackId>,
    pub write_queue: VecDeque<(Vec<u8>, CallbackId)>,
}

/// What a [`TcpStream`] holds.
pub struct StreamView {
    pub id: SharedId,
    pub socket: SocketId,
    pub on_connection: Option<CallbackId>,
    pub on_read: Option<CallbackId>,
    pub on_close: Option<CallbackId>,
    pub write_queue: Seq<(Seq<u8>, CallbackId)>,
}

impl View for TcpStream {
    type V = StreamView;

    open spec fn view(&self) -> StreamView {
        StreamView {
            id: self.id,
            socket: self.socket,
            on_connection: self.on_connection,
            on_read: self.on_read,
            on_close: self.on_close,
            write_queue: self.write_queue@.map_values(
                |entry: (Vec<u8>, CallbackId)| (entry.0@, entry.1),
            ),
        }
    }
}

impl StreamView {
    pub open spec fn handle(self) -> TcpStreamHandle {
        TcpStreamHandle { id: self.id, socket: self.socket }
    }

    /// The readiness to poll for while the stream is being read: writable too
    /// as long as something waits to be written.
    pub open spec fn read_interest(self) -> Interest {
        if self.write_queue.len() == 0 {
            Interest::Readable
        } else {
            Interest::Both
        }
    }

    /// The stream after `destroy`, and the effects of it: the write side is shut
    /// down, and the close callback runs if there is one.
    pub open spec fn destroyed(self) -> (StreamView, Seq<EffectView>) {
        (
            StreamView { on_close: None, ..self },
            match self.on_close {
                Some(callback) => seq![
                    EffectView::Plain(Effect::Shutdown(self.socket)),
                    EffectView::Plain(Effect::CloseCallback(callback)),
                ],
                None => seq![EffectView::Plain(Effect::Shutdown(self.socket))],
            },
        )
    }
}

/// The outcome of one read from a socket.
#[derive(Debug, PartialEq, Eq)]
pub enum ReadOutcome {
    /// The bytes read. None means the other side has closed the connection or
    /// is done writing.
    Data(Vec<u8>),
    /// The socket is not actually ready to be read.
    WouldBlock,
    /// The read was interrupted.
    Interrupted,
    /// The read has failed.
    Failed(ErrorId),
}

/// What a [`ReadOutcome`] holds.
pub enum ReadOutcomeView {
    Data(Seq<u8>),
    WouldBlock,
    Interrupted,
    Failed(ErrorId),
}

impl View for ReadOutcome {
    type V = ReadOutcomeView;

    open spec fn view(&self) -> ReadOutcomeView {
        match *self {
            ReadOutcome::Data(data) => ReadOutcomeView::Data(data@),
            ReadOutcome::WouldBlock => ReadOutcomeView::WouldBlock,
            ReadOutcome::Interrupted => ReadOutcomeView::Interrupted,
            ReadOutcome::Failed(error) => ReadOutcomeView::Failed(error),
        }
    }
}

/// How far a series of reads from a ready socket has come.
#[derive(Debug, PartialEq, Eq)]
pub struct ReadProgress {
    /// The bytes read so far.
    pub data: Vec<u8>,
    /// The last error.
    pub error: Option<ErrorId>,
    /// Whether the other side is done writing.
    pub eof: bool,
    /// Whether there is nothing more to read for now.
    pub done: bool,
}

/// What a [`ReadProgress`] holds.
pub struct ReadView {
    pub data: Seq<u8>,
    pub error: Option<ErrorId>,
    pub eof: bool,
    pub done: bool,
}

impl View for ReadProgress {
    type V = ReadView;

    open spec fn view(&self) -> ReadView {
        ReadView { data: self.data@, error: self.error, eof: self.eof, done: self.done }
    }
}

impl ReadView {
    /// Nothing read yet.
    pub open spec fn start() -> ReadView {
        ReadView { data: Seq::empty(), error: None, eof: false, done: false }
    }

    /// The progress after one more read.
    pub open spec fn after(self, outcome: ReadOutcomeView) -> ReadView {
        match outcome {
            ReadOutcomeView::Data(data) => if data.len() == 0 {
                ReadView { eof: true, done: true, ..self }
            } else {
                ReadView { data: self.data + data, ..self }
            },
            ReadOutcomeView::WouldBlock => ReadView { done: true, ..self },
            ReadOutcomeView::Interrupted => self,
            ReadOutcomeView::Failed(error) => ReadView { error: Some(error), ..self },
        }
    }
}

impl ReadProgress {
    /// Starts a series of reads.
    pub fn new() -> (progress: Self)
        ensures
            progress@ == ReadView::start(),
    {
        let progress = ReadProgress { data: Vec::new(), error: None, eof: false, done: false };
        assert(progress.data@ =~= Seq::empty());
        progress
    }

    /// Takes the outcome of one read. Returns whether to read on.
    pub fn step(&mut self, outcome: ReadOutcome) -> (more: bool)
        requires
            !old(self).done,
        ensures
            final(self)@ == old(self)@.after(outcome@),
            more == !final(self).done,
    {
        match outcome {
            ReadOutcome::Data(data) => {
                // Reading 0 bytes means the other side has closed the
                // connection or is done writing.
                if data.len() == 0 {
                    self.eof = true;
                    self.done = true;
                } else {
                    let mut data = data;
                    self.data.append(&mut data);
                }
            },
            ReadOutcome::WouldBlock => {
                self.done = true;
            },
            ReadOutcome::Interrupted => {},
            ReadOutcome::Failed(error) => {
                self.error = Some(error);
            },
        }
        !self.done
    }
}

/// What a stream does once a series of reads has ended: the bytes are delivered,
/// and no bytes after them once the other side is done. A socket that was not
/// actually ready is not reported.
pub open spec fn read_effects(stream: StreamView, progress: ReadView) -> Seq<EffectView> {
    match stream.on_read {
        None => if progress.eof {
            seq![EffectView::Plain(Effect::Deregister(stream.socket))]
        } else {
            Seq::empty()
        },
        Some(callback) => match progress.error {
            Some(error) => seq![
                EffectView::ReadCallback(callback, stream.handle(), Err(Failure::Reported(error))),
            ],
            None => if progress.data.len() == 0 && !progress.eof {
                Seq::empty()
            } else if progress.data.len() == 0 || !progress.eof {
                seq![EffectView::ReadCallback(callback, stream.handle(), Ok(progress.data))]
            } else {
                seq![
                    EffectView::ReadCallback(callback, stream.handle(), Ok(progress.data)),
                    EffectView::ReadCallback(callback, stream.handle(), Ok(Seq::empty())),
                ]
            },
        },
    }
}

/// Whether a stream is to be closed once a series of reads has ended: the other
/// side is done and nobody listens.
pub open spec fn read_closes(stream: StreamView, progress: ReadView) -> bool {
    stream.on_read is None && progress.eof
}

/// The error state of a socket.
#[derive(Debug, Clone, Copy, PartialEq, Eq, Structural)]
pub enum SocketStatus {
    Healthy,
    Failed(ErrorId),
}

/// The outcome of one write to a socket.
#[derive(Debug, Clone, Copy, PartialEq, Eq, Structural)]
pub enum WriteOutcome {
    /// The number of bytes written.
    Written(usize),
    /// The socket is not actually ready to be written.
    WouldBlock,
    /// The write was interrupted.
    Interrupted,
    /// The write has failed.
    Failed(ErrorId),
}

/// How the writing to a ready socket starts.
pub struct WriteStart {
    /// The stream afterwards.
    pub stream: StreamView,
    pub effects: Seq<EffectView>,
    /// Whether the stream is to be closed.
    pub closes: bool,
    /// Whether the queue is to be written.
    pub proceeds: bool,
}

/// How the writing to a ready socket starts, given the error state of the
/// socket. `id` identifies the stream.
pub open spec fn write_start(
    stream: StreamView,
    id: ResourceId,
    status: SocketStatus,
) -> WriteStart {
    match (status, stream.on_connection) {
        (SocketStatus::Failed(error), Some(callback)) => WriteStart {
            stream: StreamView { on_connection: None, ..stream },
            effects: seq![
                EffectView::Plain(
                    Effect::ConnectionCallback(callback, Err(Failure::Reported(error))),
                ),
            ],
            closes: true,
            proceeds: false,
        },
        (SocketStatus::Failed(error), None) => if stream.write_queue.len() > 0 {
            WriteStart {
                stream: StreamView { write_queue: stream.write_queue.drop_first(), ..stream },
                effects: seq![
                    EffectView::Plain(
                        Effect::WriteCallback(
                            stream.write_queue[0].1,
                            stream.handle(),
                            Err(Failure::Reported(error)),
                        ),
                    ),
                ],
                closes: false,
                proceeds: false,
            }
        } else {
            WriteStart { stream, effects: Seq::empty(), closes: false, proceeds: true }
        },
        (SocketStatus::Healthy, Some(callback)) => WriteStart {
            stream: StreamView { on_connection: None, ..stream },
            effects: seq![
                EffectView::Plain(Effect::ConnectionCallback(callback, Ok(stream.handle()))),
                EffectView::Plain(
                    Effect::Reregister(stream.socket, token_of(id), Interest::Readable),
                ),
            ],
            closes: false,
            proceeds: true,
        },
        (SocketStatus::Healthy, None) => WriteStart {
            stream,
            effects: Seq::empty(),
            closes: false,
            proceeds: true,
        },
    }
}

/// What the write of the front of the queue leads to: the stream afterwards,
/// the effects, and whether to write on.
pub open spec fn write_after(stream: StreamView, outcome: WriteOutcome) -> (
    StreamView,
    Seq<EffectView>,
    bool,
)
    recommends
        stream.write_queue.len() > 0,
{
    let (data, callback) = stream.write_queue[0];
    let rest = StreamView { write_queue: stream.write_queue.drop_first(), ..stream };
    match outcome {
        WriteOutcome::Written(n) => (
            rest,
            seq![
                EffectView::Plain(
                    Effect::WriteCallback(
                        callback,
                        stream.handle(),
                        if n < data.len() {
                            Err(Failure::ShortWrite)
                        } else {
                            Ok(n)
                        },
                    ),
                ),
            ],
            true,
        ),
        WriteOutcome::WouldBlock => (stream, Seq::empty(), false),
        WriteOutcome::Interrupted => (stream, Seq::empty(), true),
        WriteOutcome::Failed(error) => (
            rest,
            seq![
                EffectView::Plain(
                    Effect::WriteCallback(
                        callback,
                        stream.handle(),
                        Err(Failure::Reported(error)),
                    ),
                ),
            ],
            true,
        ),
    }
}

/// What ends the writing to a ready socket: write interest is dropped once
/// nothing waits to be written.
pub open spec fn write_end(stream: StreamView, id: ResourceId) -> Seq<EffectView> {
    if stream.write_queue.len() == 0 {
        seq![
            EffectView::Plain(Effect::Reregister(stream.socket, token_of(id), Interest::Readable)),
        ]
    } else {
        Seq::empty()
    }
}

impl TcpStream {
    /// Creates the stream of a socket. `on_connection` runs once the socket is
    /// known to be connected.
    pub fn new(id: SharedId, socket: SocketId, on_connection: Option<CallbackId>) -> (stream: Self)
        ensures
            stream@ == (StreamView {
                id,
                socket,
                on_connection,
                on_read: None,
                on_close: None,
                write_queue: Seq::empty(),
            }),
    {
        let stream = TcpStream {
            id,
            socket,
            on_connection,
            on_read: None,
            on_close: None,
            write_queue: VecDeque::new(),
        };
        assert(stream@.write_queue =~= Seq::empty());
        stream
    }

    /// Implements the clean up actions.
    pub fn destroy(&mut self) -> (effects: Vec<Effect>)
        ensures
            (final(self)@, viewed(effects@)) == old(self)@.destroyed(),
    {
        // Shutdown the write side of the stream.
        let mut effects: Vec<Effect> = Vec::new();
        effects.push(Effect::Shutdown(self.socket));
        // Run any user defined close action.
        if let Some(callback) = self.on_close.take() {
            effects.push(Effect::CloseCallback(callback));
        }
        assert(viewed(effects@) =~= old(self)@.destroyed().1);
        effects
    }

    /// Returns a handle to the tcp stream resource.
    pub fn handle(&self) -> (handle: TcpStreamHandle)
        ensures
            handle == self@.handle(),
    {
        TcpStreamHandle { id: self.id, socket: self.socket }
    }

    /// Adds data to the write queue for writing.
    pub fn enqueue(&mut self, data: Vec<u8>, callback: CallbackId)
        ensures
            final(self)@ == (StreamView {
                write_queue: old(self)@.write_queue.push((data@, callback)),
                ..old(self)@
            }),
    {
        self.write_queue.push_back((data, callback));
        assert(self@.write_queue =~= old(self)@.write_queue.push((data@, callback)));
    }

    /// Returns the readiness to poll for while the stream is being read.
    pub fn read_interest(&self) -> (interest: Interest)
        ensures
            interest == self@.read_interest(),
    {
        if self.write_queue.len() == 0 {
            Interest::Readable
        } else {
            Interest::Both
        }
    }

    /// Reacts to a series of reads from a ready socket that has ended. `id`
    /// identifies the stream.
    pub fn read_from_socket(
        &self,
        id: ResourceId,
        progress: ReadProgress,
        close_queue: &mut Vec<ResourceId>,
    ) -> (effects: Vec<Effect>)
        ensures
            viewed(effects@) == read_effects(self@, progress@),
            final(close_queue)@ == if read_closes(self@, progress@) {
                old(close_queue)@.push(id)
            } else {
                old(close_queue)@
            },
    {
        let mut effects: Vec<Effect> = Vec::new();

        // NOTE: If a FIN packet received without us listening on the tcp stream, it means that
        // the other side closed the connection so we'll schedule the resource for removal.
        let on_read = match self.on_read {
            Some(on_read) => on_read,
            None => {
                if progress.eof {
                    // Deregister any interest on the socket.
                    effects.push(Effect::Deregister(self.socket));
                    close_queue.push(id);
                }
                assert(viewed(effects@) =~= read_effects(self@, progress@));
                return effects;
            },
        };

        // Check if we had any errors while reading.
        if let Some(error) = progress.error {
            let failure = Failure::Reported(error);
            effects.push(Effect::ReadCallback(on_read, self.handle(), Err(failure)));
            assert(viewed(effects@) =~= read_effects(self@, progress@));
            return effects;
        }
        // The socket was not ready after all.
        if progress.data.len() == 0 && !progress.eof {
            assert(viewed(effects@) =~= read_effects(self@, progress@));
            return effects;
        }
        // A FIN packet is reported as no bytes, after the bytes it came with.
        let fin_follows = progress.data.len() > 0 && progress.eof;
        let ghost data = progress.data@;
        effects.push(Effect::ReadCallback(on_read, self.handle(), Ok(progress.data)));
        if fin_follows {
            let none: Vec<u8> = Vec::new();
            assert(none@ =~= Seq::empty());
            effects.push(Effect::ReadCallback(on_read, self.handle(), Ok(none)));
        }
        assert(viewed(effects@) =~= read_effects(self@, progress@));
        effects
    }

    /// Starts writing to a ready socket, given the error state of the socket.
    /// `id` identifies the stream. Returns what to do first, and whether to go
    /// on writing the queue.
    pub fn write_to_socket(
        &mut self,
        id: ResourceId,
        status: SocketStatus,
        close_queue: &mut Vec<ResourceId>,
    ) -> (started: (Vec<Effect>, bool))
        ensures
            ({
                let start = write_start(old(self)@, id, status);
                &&& final(self)@ == start.stream
                &&& viewed(started.0@) == start.effects
                &&& started.1 == start.proceeds
                &&& final(close_queue)@ == if start.closes {
                    old(close_queue)@.push(id)
                } else {
                    old(close_queue)@
                }
            }),
    {
        let ghost start = write_start(self@, id, status);
        let mut effects: Vec<Effect> = Vec::new();

        // Check if the socket is in error state.
        if let SocketStatus::Failed(error) = status {
            let failure = Failure::Reported(error);
            // if the on_connection callback is not None it means a socket error happened
            // while trying to connect and we should schedule the resource for
            // clean-up since the socket is in an error state.
            if let Some(on_connection) = self.on_connection.take() {
                effects.push(Effect::ConnectionCallback(on_connection, Err(failure)));
                close_queue.push(id);
                assert(viewed(effects@) =~= start.effects);
                return (effects, false);
            }
            // Otherwise the error happened while writing.
            if let Some((_, on_write)) = self.write_queue.pop_front() {
                effects.push(Effect::WriteCallback(on_write, self.handle(), Err(failure)));
                assert(viewed(effects@) =~= start.effects);
                assert(self@.write_queue =~= start.stream.write_queue);
                return (effects, false);
            }
        }
        // If the on_connection callback is None it means that in some previous iteration
        // we made sure the tcp socket is well connected with the remote host.
        if let Some(on_connection) = self.on_connection.take() {
            effects.push(Effect::ConnectionCallback(on_connection, Ok(self.handle())));
            effects.push(Effect::Reregister(self.socket, token(id), Interest::Readable));
        }
        assert(viewed(effects@) =~= start.effects);
        (effects, true)
    }

    /// Returns the bytes to write next.
    pub fn write_front(&self) -> (front: Option<&Vec<u8>>)
        ensures
            match front {
                Some(data) => self@.write_queue.len() > 0 && data@ == self@.write_queue[0].0,
                None => self@.write_queue.len() == 0,
            },
    {
        if self.write_queue.len() == 0 {
            None
        } else {
            Some(&self.write_queue[0].0)
        }
    }

    /// Takes the outcome of writing the front of the queue. Returns what to do,
    /// and whether to write on.
    pub fn write_step(&mut self, outcome: WriteOutcome) -> (stepped: (Vec<Effect>, bool))
        requires
            old(self)@.write_queue.len() > 0,
        ensures
            (final(self)@, viewed(stepped.0@), stepped.1) == write_after(old(self)@, outcome),
    {
        let ghost after = write_after(self@, outcome);
        let mut effects: Vec<Effect> = Vec::new();
        if let WriteOutcome::WouldBlock = outcome {
            // The data could not be sent and stays at the front of the queue.
            assert(viewed(effects@) =~= after.1);
            return (effects, false);
        }
        if let WriteOutcome::Interrupted = outcome {
            // The data stays at the front of the queue, to be sent again.
            assert(viewed(effects@) =~= after.1);
            return (effects, true);
        }
        let handle = self.handle();
        if let Some((data, on_write)) = self.write_queue.pop_front() {
            assert(self@.write_queue =~= after.0.write_queue);
            match outcome {
                WriteOutcome::Written(n) => {
                    // We want to write the entire `data` buffer in a single go. If we
                    // write less we'll return a short write error.
                    let result = if n < data.len() {
                        Err(Failure::ShortWrite)
                    } else {
                        Ok(n)
                    };
                    effects.push(Effect::WriteCallback(on_write, handle, result));
                },
                WriteOutcome::Failed(error) => {
                    let failure = Failure::Reported(error);
                    effects.push(Effect::WriteCallback(on_write, handle, Err(failure)));
                },
                WriteOutcome::WouldBlock | WriteOutcome::Interrupted => {},
            }
        }
        assert(viewed(effects@) =~= after.1);
        (effects, true)
    }

    /// Ends the writing to a ready socket. `id` identifies the stream.
    pub fn write_finish(&self, id: ResourceId) -> (effects: Vec<Effect>)
        ensures
            viewed(effects@) == write_end(self@, id),
    {
        let mut effects: Vec<Effect> = Vec::new();
        // Unregister write interest if the write_queue is empty.
        if self.write_queue.len() == 0 {
            effects.push(Effect::Reregister(self.socket, token(id), Interest::Readable));
        }
        assert(viewed(effects@) =~= write_end(self@, id));
        effects
    }
}

impl Downcast for TcpStream {
    open spec fn of_kind() -> ResourceKind {
        ResourceKind::TcpStream
    }

    open spec fn as_resource(&self) -> ResourceView {
        ResourceView::TcpStream(self@)
    }

    fn downcast_ref(resource: &Resource) -> (inner: Option<&Self>) {
        match resource {
            Resource::TcpStream(stream) => Some(stream),
            _ => None,
        }
    }

    fn downcast_mut(resource: &mut Resource) -> (inner: Option<&mut Self>) {
        match resource {
            Resource::TcpStream(stream) => Some(stream),
            _ => None,
        }
    }
}

/// A reference like struct to an open tcp connection.
#[derive(Debug, Clone, Copy, PartialEq, Eq, Structural)]
pub struct TcpStreamHandle {
    /// A shared reference to the connection.
    pub id: SharedId,
    /// The socket of the connection.
    pub socket: SocketId,
}

impl TcpStreamHandle {
    /// Writes data to the tcp stream.
    pub fn write(&self, handle: &mut LoopHandle, data: Vec<u8>, callback: CallbackId)
        ensures
            final(handle)@ == old(handle)@.queued(
                RequestView::TcpWrite(self.id, data@, callback),
            ),
            old(handle)@.used(final(handle)@),
    {
        handle.tcp_write(self.id, data, callback);
    }

    /// Starts reading from the tcp stream.
    pub fn start_reading(&self, handle: &mut LoopHandle, callback: CallbackId)
        ensures
            final(handle)@ == old(handle)@.queued(RequestView::TcpRead(self.id, callback)),
            old(handle)@.used(final(handle)@),
    {
        handle.tcp_read_start(self.id, callback);
    }

    /// Closes the write side of the tcp stream.
    pub fn shutdown_write(&self, handle: &mut LoopHandle, callback: CallbackId)
        ensures
            final(handle)@ == old(handle)@.queued(RequestView::TcpShutdown(self.id, callback)),
            old(handle)@.used(final(handle)@),
    {
        handle.tcp_shutdown(self.id, callback);
    }

    /// Completely closes the tcp stream.
    pub fn close(&self, handle: &mut LoopHandle, callback: CallbackId)
        ensures
            final(handle)@ == old(handle)@.queued(RequestView::TcpClose(self.id, callback)),
            old(handle)@.used(final(handle)@),
    {
        handle.tcp_close(self.id, callback);
    }
}

/// What a series of reads has come to.
pub open spec fn read_series(progress: ReadView, outcomes: Seq<ReadOutcomeView>) -> ReadView
    decreases outcomes.len(),
{
    if outcomes.len() == 0 {
        progress
    } else {
        read_series(progress, outcomes.drop_last()).after(outcomes.last())
    }
}

/// The bytes that a series of reads has given.
pub open spec fn bytes_of(outcomes: Seq<ReadOutcomeView>) -> Seq<u8>
    decreases outcomes.len(),
{
    if outcomes.len() == 0 {
        Seq::empty()
    } else {
        match outcomes.last() {
            ReadOutcomeView::Data(data) => bytes_of(outcomes.drop_last()) + data,
            _ => bytes_of(outcomes.drop_last()),
        }
    }
}

/// A series of reads collects all the bytes that it gives, in order.
pub proof fn reads_collect_all_bytes(progress: ReadView, outcomes: Seq<ReadOutcomeView>)
    ensures
        read_series(progress, outcomes).data == progress.data + bytes_of(outcomes),
    decreases outcomes.len(),
{
    if outcomes.len() > 0 {
        reads_collect_all_bytes(progress, outcomes.drop_last());
        assert(read_series(progress, outcomes).data =~= progress.data + bytes_of(outcomes));
    } else {
        assert(progress.data + Seq::<u8>::empty() =~= progress.data);
    }
}

/// Whatever a series of reads gives is delivered to the reader in one piece,
/// unless reading has failed: no byte is lost.
pub proof fn all_bytes_are_delivered(
    stream: StreamView,
    callback: CallbackId,
    outcomes: Seq<ReadOutcomeView>,
)
    requires
        stream.on_read == Some(callback),
        bytes_of(outcomes).len() > 0,
        read_series(ReadView::start(), outcomes).error is None,
    ensures
        read_effects(stream, read_series(ReadView::start(), outcomes))[0]
            == EffectView::ReadCallback(callback, stream.handle(), Ok(bytes_of(outcomes))),
{
    reads_collect_all_bytes(ReadView::start(), outcomes);
    assert(ReadView::start().data + bytes_of(outcomes) =~= bytes_of(outcomes));
}

/// A reader hears that there are no more bytes only if the other side is done.
pub proof fn no_end_without_an_end(stream: StreamView, progress: ReadView, i: int)
    requires
        !progress.eof,
        0 <= i < read_effects(stream, progress).len(),
    ensures
        !(read_effects(stream, progress)[i] matches EffectView::ReadCallback(_, _, Ok(data))
            && data.len() == 0),
{
}

/// Once the other side is done writing, the last thing that a reader hears is
/// that there are no more bytes, unless reading has failed. Where nobody reads,
/// the stream is deregistered and closed instead.
pub proof fn end_of_stream_is_noticed(stream: StreamView, progress: ReadView)
    requires
        progress.eof,
    ensures
        match stream.on_read {
            Some(callback) => {
                &&& !read_closes(stream, progress)
                &&& progress.error is None ==> read_effects(stream, progress).last()
                    == EffectView::ReadCallback(
                    callback,
                    stream.handle(),
                    Ok(Seq::<u8>::empty()),
                )
            },
            None => {
                &&& read_closes(stream, progress)
                &&& read_effects(stream, progress) == seq![
                    EffectView::Plain(Effect::Deregister(stream.socket)),
                ]
            },
        },
{
    if stream.on_read is Some && progress.error is None && progress.data.len() == 0 {
        assert(progress.data =~= Seq::empty());
    }
}

/// A connection attempt that fails is reported once and closed; one that
/// succeeds is reported once.
pub proof fn connection_is_reported_once(stream: StreamView, id: ResourceId, status: SocketStatus)
    requires
        stream.on_connection is Some,
    ensures
        ({
            let start = write_start(stream, id, status);
            let again = write_start(start.stream, id, status);
            &&& start.effects[0] is Plain
            &&& start.effects[0]->Plain_0 is ConnectionCallback
            &&& start.effects[0]->Plain_0->ConnectionCallback_0 == stream.on_connection->0
            &&& start.effects[0]->Plain_0->ConnectionCallback_1 is Ok <==> status
                == SocketStatus::Healthy
            &&& start.closes <==> status != SocketStatus::Healthy
            &&& forall|i: int|
                0 <= i < again.effects.len() ==> !((#[trigger] again.effects[i]) is Plain
                    && again.effects[i]->Plain_0 is ConnectionCallback)
        }),
{
}

/// What a series of writes from the front of the queue leads to.
pub open spec fn write_series(stream: StreamView, outcomes: Seq<WriteOutcome>) -> (
    StreamView,
    Seq<EffectView>,
)
    decreases outcomes.len(),
{
    if outcomes.len() == 0 {
        (stream, Seq::empty())
    } else {
        let (before, effects) = write_series(stream, outcomes.drop_last());
        let (after, more, _) = write_after(before, outcomes.last());
        (after, effects + more)
    }
}

/// A write that has come to an end, well or badly.
pub open spec fn is_settled(outcome: WriteOutcome) -> bool {
    outcome is Written || outcome is Failed
}

/// What the callback of an entry hears of a write that has come to an end.
pub open spec fn write_result(data: Seq<u8>, outcome: WriteOutcome) -> Result<usize, Failure>
    recommends
        is_settled(outcome),
{
    match outcome {
        WriteOutcome::Written(n) if n >= data.len() => Ok(n),
        WriteOutcome::Failed(error) => Err(Failure::Reported(error)),
        _ => Err(Failure::ShortWrite),
    }
}

/// The writes among a series that have come to an end.
pub open spec fn settled_of(outcomes: Seq<WriteOutcome>) -> Seq<WriteOutcome>
    decreases outcomes.len(),
{
    if outcomes.len() == 0 {
        Seq::empty()
    } else if is_settled(outcomes.last()) {
        settled_of(outcomes.drop_last()).push(outcomes.last())
    } else {
        settled_of(outcomes.drop_last())
    }
}

/// Writes that do not come to an end, as they would block or were interrupted,
/// change nothing: a series leads to the same without them.
pub proof fn unsettled_writes_change_nothing(stream: StreamView, outcomes: Seq<WriteOutcome>)
    ensures
        write_series(stream, outcomes) == write_series(stream, settled_of(outcomes)),
    decreases outcomes.len(),
{
    if outcomes.len() > 0 {
        let less = outcomes.drop_last();
        unsettled_writes_change_nothing(stream, less);
        let (before, effects) = write_series(stream, less);
        if is_settled(outcomes.last()) {
            assert(settled_of(outcomes).drop_last() =~= settled_of(less));
        } else {
            assert(write_after(before, outcomes.last()).0 == before);
            assert(effects + Seq::<EffectView>::empty() =~= effects);
        }
    }
}

/// What is queued is written in order, and each entry is done with once: the
/// outcomes of the writes that come to an end go to the entries at the front of
/// the queue, one for one, each to the callback of its entry, and the rest of the
/// queue stays.
pub proof fn writes_are_reported_in_order(stream: StreamView, outcomes: Seq<WriteOutcome>)
    requires
        outcomes.len() <= stream.write_queue.len(),
        forall|i: int| 0 <= i < outcomes.len() ==> is_settled(#[trigger] outcomes[i]),
    ensures
        ({
            let (after, effects) = write_series(stream, outcomes);
            &&& after == (StreamView {
                write_queue: stream.write_queue.skip(outcomes.len() as int),
                ..stream
            })
            &&& effects.len() == outcomes.len()
            &&& forall|i: int|
                0 <= i < outcomes.len() ==> #[trigger] effects[i] == EffectView::Plain(
                    Effect::WriteCallback(
                        stream.write_queue[i].1,
                        stream.handle(),
                        write_result(stream.write_queue[i].0, outcomes[i]),
                    ),
                )
        }),
    decreases outcomes.len(),
{
    if outcomes.len() > 0 {
        let less = outcomes.drop_last();
        assert forall|i: int| 0 <= i < less.len() implies is_settled(#[trigger] less[i]) by {
            assert(less[i] == outcomes[i]);
        }
        writes_are_reported_in_order(stream, less);
        let before = write_series(stream, less).0;
        assert(is_settled(outcomes[outcomes.len() - 1]));
        assert(before.write_queue[0] == stream.write_queue[less.len() as int]);
        assert(before.write_queue.drop_first() =~= stream.write_queue.skip(outcomes.len() as int));
        let (after, effects) = write_series(stream, outcomes);
        assert forall|i: int| 0 <= i < outcomes.len() implies #[trigger] effects[i]
            == EffectView::Plain(
            Effect::WriteCallback(
                stream.write_queue[i].1,
                stream.handle(),
                write_result(stream.write_queue[i].0, outcomes[i]),
            ),
        ) by {
            if i < less.len() {
                assert(effects[i] == write_series(stream, less).1[i]);
                assert(less[i] == outcomes[i]);
            }
        }
    } else {
        assert(stream.write_queue.skip(0) =~= stream.write_queue);
    }
}

/// A write that was interrupted loses nothing: the entry stays at the front of
/// the queue and is written again.
pub proof fn interrupted_write_is_tried_again(stream: StreamView)
    requires
        stream.write_queue.len() > 0,
    ensures
        write_after(stream, WriteOutcome::Interrupted)
            == (stream, Seq::<EffectView>::empty(), true),
{
}

/// A write that would block changes nothing and ends the series; the entry
/// stays at the front of the queue, and the stream stays interested in writing.
pub proof fn blocked_write_keeps_the_queue(stream: StreamView, id: ResourceId)
    requires
        stream.write_queue.len() > 0,
    ensures
        write_after(stream, WriteOutcome::WouldBlock)
            == (stream, Seq::<EffectView>::empty(), false),
        write_end(stream, id) == Seq::<EffectView>::empty(),
        stream.read_interest() == Interest::Both,
{
}

/// On a healthy socket the writing always goes ahead: the queue is left as it is,
/// to be offered to the socket, and nothing is closed. A connection attempt that
/// was not reported yet is, to its callback alone, with a handle to the stream,
/// and the socket is polled for reading from then on.
pub proof fn healthy_socket_is_written_to(stream: StreamView, id: ResourceId)
    ensures
        ({
            let start = write_start(stream, id, SocketStatus::Healthy);
            &&& start.proceeds
            &&& !start.closes
            &&& start.stream.write_queue == stream.write_queue
            &&& start.stream.on_connection is None
            &&& start.stream.id == stream.id
            &&& start.stream.socket == stream.socket
            &&& start.stream.on_read == stream.on_read
            &&& start.stream.on_close == stream.on_close
            &&& stream.on_connection is None ==> start.effects.len() == 0
            &&& stream.on_connection is Some ==> {
                &&& start.effects.len() == 2
                &&& start.effects[0] == EffectView::Plain(
                    Effect::ConnectionCallback(
                        stream.on_connection->0,
                        Ok(TcpStreamHandle { id: stream.id, socket: stream.socket }),
                    ),
                )
                &&& start.effects[1] == EffectView::Plain(
                    Effect::Reregister(stream.socket, id as usize, Interest::Readable),
                )
            }
        }),
{
}

/// The error of a socket goes to one callback, and the socket is not written to:
/// to that of the connection attempt, upon which the stream is closed, or else to
/// that of the next write, which is then done with, or to nobody if there is
/// neither. In that case the writing goes ahead as on a healthy socket.
pub proof fn socket_error_is_reported_once(stream: StreamView, id: ResourceId, error: ErrorId)
    ensures
        ({
            let start = write_start(stream, id, SocketStatus::Failed(error));
            let handle = TcpStreamHandle { id: stream.id, socket: stream.socket };
            let failure = Failure::Reported(error);
            &&& start.stream.id == stream.id
            &&& start.stream.socket == stream.socket
            &&& start.stream.on_connection is None
            &&& start.stream.on_read == stream.on_read
            &&& start.stream.on_close == stream.on_close
            &&& start.closes <==> stream.on_connection is Some
            &&& start.proceeds <==> stream.on_connection is None && stream.write_queue.len() == 0
            &&& start.effects.len() == if start.proceeds {
                0nat
            } else {
                1nat
            }
            &&& stream.on_connection is Some ==> {
                &&& start.effects[0] == EffectView::Plain(
                    Effect::ConnectionCallback(stream.on_connection->0, Err(failure)),
                )
                &&& start.stream.write_queue == stream.write_queue
            }
            &&& stream.on_connection is None && stream.write_queue.len() > 0 ==> {
                &&& start.effects[0] == EffectView::Plain(
                    Effect::WriteCallback(stream.write_queue[0].1, handle, Err(failure)),
                )
                &&& seq![stream.write_queue[0]] + start.stream.write_queue == stream.write_queue
            }
            &&& start.proceeds ==> start.stream.write_queue == stream.write_queue
        }),
{
    if stream.write_queue.len() > 0 {
        assert(seq![stream.write_queue[0]] + stream.write_queue.drop_first()
            =~= stream.write_queue);
    }
}

/// A socket is written to until it would block, and for no other reason does the
/// writing end before the queue does.
pub proof fn writing_ends_only_where_it_would_block(stream: StreamView, outcome: WriteOutcome)
    requires
        stream.write_queue.len() > 0,
    ensures
        !write_after(stream, outcome).2 <==> outcome == WriteOutcome::WouldBlock,
{
}

/// A healthy socket that takes all bytes empties the queue: from the start of
/// writing over one write for each entry to the end of writing, every entry is
/// written, each callback hears of all its bytes, in order and once, and the
/// socket is no longer polled for writing.
pub proof fn healthy_socket_empties_the_queue(
    stream: StreamView,
    id: ResourceId,
    outcomes: Seq<WriteOutcome>,
)
    requires
        outcomes.len() == stream.write_queue.len(),
        forall|i: int|
            0 <= i < outcomes.len() ==> (#[trigger] outcomes[i]) is Written
                && outcomes[i]->Written_0 == stream.write_queue[i].0.len(),
    ensures
        ({
            let start = write_start(stream, id, SocketStatus::Healthy);
            let (after, effects) = write_series(start.stream, outcomes);
            let handle = TcpStreamHandle { id: stream.id, socket: stream.socket };
            &&& start.proceeds
            &&& after.write_queue.len() == 0
            &&& effects.len() == stream.write_queue.len()
            &&& forall|i: int|
                0 <= i < effects.len() ==> #[trigger] effects[i] == EffectView::Plain(
                    Effect::WriteCallback(
                        stream.write_queue[i].1,
                        handle,
                        Ok(stream.write_queue[i].0.len() as usize),
                    ),
                )
            &&& write_end(after, id) == seq![
                EffectView::Plain(
                    Effect::Reregister(stream.socket, id as usize, Interest::Readable),
                ),
            ]
        }),
{
    let start = write_start(stream, id, SocketStatus::Healthy);
    healthy_socket_is_written_to(stream, id);
    assert forall|i: int| 0 <= i < outcomes.len() implies is_settled(#[trigger] outcomes[i]) by {}
    writes_are_reported_in_order(start.stream, outcomes);
    let effects = write_series(start.stream, outcomes).1;
    assert forall|i: int| 0 <= i < effects.len() implies #[trigger] effects[i]
        == EffectView::Plain(
        Effect::WriteCallback(
            stream.write_queue[i].1,
            TcpStreamHandle { id: stream.id, socket: stream.socket },
            Ok(stream.write_queue[i].0.len() as usize),
        ),
    ) by {
        assert(outcomes[i] is Written);
    }
}

/// The callback of a write hears of the bytes only if all were written, of a
/// short write if fewer were, and of an error if there was one. The entry is done
/// with then, and nothing else of the stream changes.
pub proof fn write_is_reported_as_it_went(stream: StreamView, outcome: WriteOutcome)
    requires
        stream.write_queue.len() > 0,
        outcome is Written || outcome is Failed,
    ensures
        ({
            let (after, effects, more) = write_after(stream, outcome);
            let (data, callback) = stream.write_queue[0];
            &&& effects.len() == 1
            &&& effects[0] is Plain
            &&& effects[0]->Plain_0 is WriteCallback
            &&& effects[0]->Plain_0->WriteCallback_0 == callback
            &&& effects[0]->Plain_0->WriteCallback_1.id == stream.id
            &&& effects[0]->Plain_0->WriteCallback_1.socket == stream.socket
            &&& match (effects[0]->Plain_0->WriteCallback_2, outcome) {
                (Ok(count), WriteOutcome::Written(n)) => count == n && n >= data.len(),
                (Err(Failure::ShortWrite), WriteOutcome::Written(n)) => n < data.len(),
                (Err(Failure::Reported(error)), WriteOutcome::Failed(failed)) => error == failed,
                _ => false,
            }
            &&& seq![stream.write_queue[0]] + after.write_queue == stream.write_queue
            &&& after == (StreamView { write_queue: after.write_queue, ..stream })
            &&& more
        }),
{
    assert(seq![stream.write_queue[0]] + stream.write_queue.drop_first() =~= stream.write_queue);
}

/// A socket is polled for writing exactly as long as something waits to be
/// written: the end of writing drops the interest once the queue is empty, and
/// only then, and the start of reading keeps it.
pub proof fn write_interest_lasts_as_long_as_the_queue(stream: StreamView, id: ResourceId)
    ensures
        write_end(stream, id).len() == 0 <==> stream.write_queue.len() > 0,
        stream.write_queue.len() == 0 ==> write_end(stream, id) == seq![
            EffectView::Plain(Effect::Reregister(stream.socket, id as usize, Interest::Readable)),
        ],
        stream.read_interest() == Interest::Both <==> stream.write_queue.len() > 0,
        stream.read_interest() == Interest::Readable <==> stream.write_queue.len() == 0,
{
}

/// A series of reads has failed if one of its reads has, with the error of the
/// last that has.
pub proof fn last_error_of_a_series_counts(outcomes: Seq<ReadOutcomeView>)
    ensures
        ({
            let progress = read_series(ReadView::start(), outcomes);
            match progress.error {
                Some(error) => exists|k: int|
                    {
                        &&& 0 <= k < outcomes.len()
                        &&& #[trigger] outcomes[k] == ReadOutcomeView::Failed(error)
                        &&& forall|j: int|
                            k < j < outcomes.len() ==> !(#[trigger] outcomes[j] is Failed)
                    },
                None => forall|k: int|
                    0 <= k < outcomes.len() ==> !(#[trigger] outcomes[k] is Failed),
            }
        }),
    decreases outcomes.len(),
{
    if outcomes.len() > 0 {
        let less = outcomes.drop_last();
        last_error_of_a_series_counts(less);
        let last = outcomes.len() - 1;
        if outcomes[last] is Failed {
            assert(outcomes[last] == ReadOutcomeView::Failed(outcomes[last]->Failed_0));
        } else {
            match read_series(ReadView::start(), less).error {
                Some(error) => {
                    let k = choose|k: int|
                        {
                            &&& 0 <= k < less.len()
                            &&& #[trigger] less[k] == ReadOutcomeView::Failed(error)
                            &&& forall|j: int|
                                k < j < less.len() ==> !(#[trigger] less[j] is Failed)
                        };
                    assert(outcomes[k] == ReadOutcomeView::Failed(error));
                    assert forall|j: int| k < j < outcomes.len() implies !(
                    #[trigger] outcomes[j] is Failed) by {
                        if j < last {
                            assert(!(less[j] is Failed));
                        }
                    }
                },
                None => {
                    assert forall|k: int| 0 <= k < outcomes.len() implies !(
                    #[trigger] outcomes[k] is Failed) by {
                        if k < last {
                            assert(!(less[k] is Failed));
                        }
                    }
                },
            }
        }
    }
}

/// If a read of a series has failed, the reader is called once, with the error of
/// the last that has, and nothing else happens, whatever bytes and whatever end
/// of the stream came with it.
pub proof fn read_error_is_all_that_is_heard(
    stream: StreamView,
    callback: CallbackId,
    outcomes: Seq<ReadOutcomeView>,
    k: int,
    error: ErrorId,
)
    requires
        stream.on_read == Some(callback),
        0 <= k < outcomes.len(),
        outcomes[k] == ReadOutcomeView::Failed(error),
        forall|j: int| k < j < outcomes.len() ==> !(#[trigger] outcomes[j] is Failed),
    ensures
        ({
            let progress = read_series(ReadView::start(), outcomes);
            &&& read_effects(stream, progress) == seq![
                EffectView::ReadCallback(
                    callback,
                    TcpStreamHandle { id: stream.id, socket: stream.socket },
                    Err(Failure::Reported(error)),
                ),
            ]
            &&& !read_closes(stream, progress)
        }),
{
    last_error_of_a_series_counts(outcomes);
    let progress = read_series(ReadView::start(), outcomes);
    assert(outcomes[k] is Failed);
    assert(progress.error is Some);
    let found = choose|m: int|
        {
            &&& 0 <= m < outcomes.len()
            &&& #[trigger] outcomes[m] == ReadOutcomeView::Failed(progress.error->0)
            &&& forall|j: int| m < j < outcomes.len() ==> !(#[trigger] outcomes[j] is Failed)
        };
    assert(found == k) by {
        if found < k {
            assert(!(outcomes[k] is Failed));
        } else if k < found {
            assert(!(outcomes[found] is Failed));
        }
    }
}

/// A series of reads has come to the end of the stream if one of its reads gave
/// no bytes, and is over if one did or would have blocked.
pub proof fn end_of_a_series(outcomes: Seq<ReadOutcomeView>)
    ensures
        ({
            let progress = read_series(ReadView::start(), outcomes);
            &&& progress.eof <==> exists|k: int|
                0 <= k < outcomes.len() && (#[trigger] outcomes[k]) is Data
                    && outcomes[k]->Data_0.len() == 0
            &&& progress.done <==> progress.eof || exists|k: int|
                0 <= k < outcomes.len() && (#[trigger] outcomes[k]) is WouldBlock
        }),
    decreases outcomes.len(),
{
    if outcomes.len() > 0 {
        let less = outcomes.drop_last();
        let last = outcomes.len() - 1;
        end_of_a_series(less);
        let before = read_series(ReadView::start(), less);
        if before.eof {
            let k = choose|k: int|
                0 <= k < less.len() && (#[trigger] less[k]) is Data && less[k]->Data_0.len() == 0;
            assert(outcomes[k] == less[k]);
        }
        if exists|k: int| 0 <= k < less.len() && (#[trigger] less[k]) is WouldBlock {
            let k = choose|k: int| 0 <= k < less.len() && (#[trigger] less[k]) is WouldBlock;
            assert(outcomes[k] == less[k]);
        }
        assert(outcomes[last] == outcomes.last());
        let progress = read_series(ReadView::start(), outcomes);
        if exists|k: int|
            0 <= k < outcomes.len() && (#[trigger] outcomes[k]) is Data
                && outcomes[k]->Data_0.len() == 0 {
            let k = choose|k: int|
                0 <= k < outcomes.len() && (#[trigger] outcomes[k]) is Data
                    && outcomes[k]->Data_0.len() == 0;
            if k < last {
                assert(less[k] == outcomes[k]);
            }
        }
        if exists|k: int| 0 <= k < outcomes.len() && (#[trigger] outcomes[k]) is WouldBlock {
            let k = choose|k: int|
                0 <= k < outcomes.len() && (#[trigger] outcomes[k]) is WouldBlock;
            if k < last {
                assert(less[k] == outcomes[k]);
            }
        }
    }
}

/// A reader hears of all bytes of a series that has not failed, in one piece, and
/// after them of the end of the stream if it has come to it, and of nothing else.
pub proof fn reader_hears_bytes_and_then_the_end(
    stream: StreamView,
    callback: CallbackId,
    progress: ReadView,
)
    requires
        stream.on_read == Some(callback),
        progress.error is None,
    ensures
        ({
            let effects = read_effects(stream, progress);
            let handle = TcpStreamHandle { id: stream.id, socket: stream.socket };
            let bytes = if progress.data.len() > 0 {
                1nat
            } else {
                0nat
            };
            let end = if progress.eof {
                1nat
            } else {
                0nat
            };
            &&& effects.len() == bytes + end
            &&& bytes == 1 ==> effects[0] == EffectView::ReadCallback(
                callback,
                handle,
                Ok(progress.data),
            )
            &&& end == 1 ==> effects[effects.len() - 1] == EffectView::ReadCallback(
                callback,
                handle,
                Ok(Seq::<u8>::empty()),
            )
            &&& !read_closes(stream, progress)
        }),
{
    if progress.data.len() == 0 {
        assert(progress.data =~= Seq::empty());
    }
}

/// Where nobody reads, a series of reads has an effect only if it has come to the
/// end of the stream: the socket is no longer polled and the stream is closed.
pub proof fn unread_stream_closes_at_its_end(stream: StreamView, progress: ReadView)
    requires
        stream.on_read is None,
    ensures
        read_closes(stream, progress) <==> progress.eof,
        read_effects(stream, progress).len() == if progress.eof {
            1nat
        } else {
            0nat
        },
        progress.eof ==> read_effects(stream, progress)[0] == EffectView::Plain(
            Effect::Deregister(stream.socket),
        ),
{
}

/// Destroying a stream shuts down the write side of its socket and runs its close
/// callback after that, once: a second time there is none to run.
pub proof fn destroyed_stream_is_shut_down(stream: StreamView)
    ensures
        ({
            let (after, effects) = stream.destroyed();
            &&& effects[0] == EffectView::Plain(Effect::Shutdown(stream.socket))
            &&& effects.len() == if stream.on_close is Some {
                2nat
            } else {
                1nat
            }
            &&& stream.on_close is Some ==> effects[1] == EffectView::Plain(
                Effect::CloseCallback(stream.on_close->0),
            )
            &&& after.destroyed().1.len() == 1
            &&& after.on_close is None
            &&& after.id == stream.id
            &&& after.socket == stream.socket
            &&& after.on_connection == stream.on_connection
            &&& after.on_read == stream.on_read
            &&& after.write_queue == stream.write_queue
        }),
{
}

} // verus!
