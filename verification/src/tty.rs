//! Terminals.

use crate::effect::Effect;
use crate::event_loop::laws::start_uses_handle;
use crate::event_loop::LoopHandle;
use crate::event_loop::RequestView;
use crate::resource::{
    CallbackId, ChannelId, Downcast, Resource, ResourceKind, ResourceView, SharedId,
};
use vstd::prelude::*;

verus! {

/// Represents the terminal input mode.
#[derive(Debug, Clone, Copy, PartialEq, Eq, Structural)]
pub enum Mode {
    /// Standard terminal mode where input is line-buffered and processed by
    /// the terminal driver before being delivered to the application.
    Normal,
    /// Raw terminal mode where input is delivered directly to the application
    /// without terminal driver processing.
    Raw,
}

/// The internal worker state for a TTY resource.
#[derive(Debug, Clone, Copy, PartialEq, Eq, Structural)]
pub struct TtyReader {
    /// The reference of this reader alone.
    pub id: SharedId,
    /// The reference of the terminal, which all of its readers share.
    pub tty: SharedId,
    pub on_read: CallbackId,
    pub stop: ChannelId,
}

impl TtyReader {
    /// Returns a handle to the TTY resource.
    pub fn handle(&self) -> (handle: TtyHandle)
        ensures
            handle == (TtyHandle { id: self.tty, stop: Some(self.stop) }),
    {
        TtyHandle { id: self.tty, stop: Some(self.stop) }
    }

    /// Runs the callback of the reader.
    pub fn run_callback(&self) -> (effect: Effect)
        ensures
            effect == Effect::TtyCallback(
                self.on_read,
                TtyHandle { id: self.tty, stop: Some(self.stop) },
            ),
    {
        Effect::TtyCallback(self.on_read, self.handle())
    }
}

impl Downcast for TtyReader {
    open spec fn of_kind() -> ResourceKind {
        ResourceKind::TtyReader
    }

    open spec fn as_resource(&self) -> ResourceView {
        ResourceView::TtyReader(*self)
    }

    fn downcast_ref(resource: &Resource) -> (inner: Option<&Self>) {
        match resource {
            Resource::TtyReader(reader) => Some(reader),
            _ => None,
        }
    }

    fn downcast_mut(resource: &mut Resource) -> (inner: Option<&mut Self>) {
        match resource {
            Resource::TtyReader(reader) => Some(reader),
            _ => None,
        }
    }
}

/// A reference like struct to a TTY instance.
#[derive(Debug, Clone, Copy, PartialEq, Eq, Structural)]
pub struct TtyHandle {
    /// A shared reference to the tty.
    pub id: SharedId,
    /// The channel that stops the input-reading thread.
    pub stop: Option<ChannelId>,
}

impl TtyHandle {
    /// Starts reading from the TTY. The thread that reads is stopped over the
    /// channel `stop`. The terminal's reference leads to the reader that was
    /// started last.
    pub fn start_reading(&self, handle: &mut LoopHandle, callback: CallbackId, stop: ChannelId)
        requires
            old(handle)@.next_id < u64::MAX,
        ensures
            final(handle)@ == old(handle)@.referenced().queued(
                RequestView::TtyReadStart(
                    TtyReader {
                        id: old(handle)@.next_id,
                        tty: self.id,
                        on_read: callback,
                        stop,
                    },
                ),
            ),
            old(handle)@.used(final(handle)@),
    {
        let reader = TtyReader { id: handle.new_id(), tty: self.id, on_read: callback, stop };
        proof {
            start_uses_handle(old(handle)@, RequestView::TtyReadStart(reader));
        }
        handle.tty_read_start(reader);
    }

    /// Stops reading from the TTY. Returns the channel on which to notify the
    /// thread that is reading.
    pub fn stop_reading(&self, handle: &mut LoopHandle) -> (notify: ChannelId)
        requires
            self.stop is Some,
        ensures
            Some(notify) == self.stop,
            final(handle)@ == old(handle)@.queued(RequestView::TtyClose(self.id)),
            old(handle)@.used(final(handle)@),
    {
        handle.tty_close(self.id);
        self.stop.unwrap()
    }

    /// Set the TTY using the specified terminal mode.
    pub fn set_mode(&self, mode: Mode) -> (effect: Effect)
        ensures
            effect == (match mode {
                Mode::Normal => Effect::DisableRawMode,
                Mode::Raw => Effect::EnableRawMode,
            }),
    {
        match mode {
            Mode::Normal => self.disable_raw_mode(),
            Mode::Raw => self.enable_raw_mode(),
        }
    }

    /// Sets the TTY to raw mode.
    fn enable_raw_mode(&self) -> (effect: Effect)
        ensures
            effect == Effect::EnableRawMode,
    {
        Effect::EnableRawMode
    }

    /// Disables raw mode, restoring the terminal to its original settings.
    pub fn disable_raw_mode(&self) -> (effect: Effect)
        ensures
            effect == Effect::DisableRawMode,
    {
        Effect::DisableRawMode
    }
}

} // verus!
