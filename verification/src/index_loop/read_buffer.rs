//! The buffer that collects what a ready socket gives.

use crate::resource::ErrorId;
use crate::tcp_stream::{ReadOutcome, ReadOutcomeView};
use vstd::prelude::*;

verus! {

/// How many bytes a buffer has room for at first.
pub const INITIAL_CAPACITY: usize = 4096;

/// How many bytes a full buffer is extended by.
pub const EXTENSION: usize = 1024;

/// The bytes that a series of reads has given so far.
#[derive(Debug, PartialEq, Eq)]
pub struct ReadBuffer {
    pub data: Vec<u8>,
    /// How many bytes the buffer has room for.
    pub capacity: usize,
    /// The last error.
    pub error: Option<ErrorId>,
    /// Whether the other side is done writing.
    pub eof: bool,
    /// Whether there is nothing more to read for now.
    pub done: bool,
}

/// What a [`ReadBuffer`] holds.
#[verifier::ext_equal]
pub struct BufferView {
    pub data: Seq<u8>,
    pub capacity: nat,
    pub error: Option<ErrorId>,
    pub eof: bool,
    pub done: bool,
}

impl View for ReadBuffer {
    type V = BufferView;

    open spec fn view(&self) -> BufferView {
        BufferView {
            data: self.data@,
            capacity: self.capacity as nat,
            error: self.error,
            eof: self.eof,
            done: self.done,
        }
    }
}

impl BufferView {
    /// An empty buffer.
    pub open spec fn start() -> BufferView {
        BufferView {
            data: Seq::empty(),
            capacity: INITIAL_CAPACITY as nat,
            error: None,
            eof: false,
            done: false,
        }
    }

    /// There is always room for at least one byte, so that reading no byte means
    /// that the other side is done.
    pub open spec fn wf(self) -> bool {
        self.data.len() < self.capacity
    }

    /// The buffer after one more read. Bytes go behind those that are there, and
    /// a full buffer is extended.
    pub open spec fn after(self, outcome: ReadOutcomeView) -> BufferView {
        match outcome {
            ReadOutcomeView::Data(data) => if data.len() == 0 {
                BufferView { eof: true, done: true, ..self }
            } else {
                BufferView {
                    data: self.data + data,
                    capacity: if self.data.len() + data.len() == self.capacity {
                        self.capacity + EXTENSION as nat
                    } else {
                        self.capacity
                    },
                    ..self
                }
            },
            ReadOutcomeView::WouldBlock => BufferView { done: true, ..self },
            ReadOutcomeView::Interrupted => self,
            ReadOutcomeView::Failed(error) => BufferView { error: Some(error), ..self },
        }
    }
}

impl ReadBuffer {
    /// Prepares a read buffer.
    pub fn new() -> (buffer: Self)
        ensures
            buffer@ == BufferView::start(),
            buffer@.wf(),
    {
        let buffer = ReadBuffer {
            data: Vec::new(),
            capacity: INITIAL_CAPACITY,
            error: None,
            eof: false,
            done: false,
        };
        assert(buffer@ =~= BufferView::start());
        buffer
    }

    /// Returns how many bytes to read at most in one go.
    pub fn room(&self) -> (room: usize)
        requires
            self@.wf(),
        ensures
            room == self@.capacity - self@.data.len(),
            room > 0,
    {
        self.capacity - self.data.len()
    }

    /// Takes the outcome of one read. Returns whether to read on.
    pub fn step(&mut self, outcome: ReadOutcome) -> (more: bool)
        requires
            old(self)@.wf(),
            !old(self).done,
            old(self).capacity <= usize::MAX - EXTENSION,
            outcome@ matches ReadOutcomeView::Data(data) ==> data.len() <= old(self)@.capacity
                - old(self)@.data.len(),
        ensures
            final(self)@ == old(self)@.after(outcome@),
            final(self)@.wf(),
            more == !final(self).done,
    {
        let ghost after = self@.after(outcome@);
        match outcome {
            ReadOutcome::Data(data) => {
                // Reading 0 bytes means the other side has closed the
                // connection or is done writing.
                if data.len() == 0 {
                    self.eof = true;
                    self.done = true;
                } else {
                    let mut data = data;
                    self.data.append(&mut data);
                    // If the buffer is not big enough, extend it.
                    if self.data.len() == self.capacity {
                        self.capacity = self.capacity + EXTENSION;
                    }
                }
            },
            // Would block "errors" are the OS's way of saying that the
            // connection is not actually ready to perform this I/O operation.
            ReadOutcome::WouldBlock => {
                self.done = true;
            },
            ReadOutcome::Interrupted => {},
            // Other errors we'll be considered fatal.
            ReadOutcome::Failed(error) => {
                self.error = Some(error);
            },
        }
        assert(self@ =~= after);
        !self.done
    }
}

} // verus!
