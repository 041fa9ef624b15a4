//! File-system events, which report changes.

use crate::effect::Effect;
use crate::event_loop::LoopHandle;
use crate::event_loop::RequestView;
use crate::resource::{
    CallbackId, Downcast, PathId, Resource, ResourceId, ResourceKind, ResourceView, SharedId,
};
use crate::fs::WatchMode;
use vstd::prelude::*;

verus! {

/// The data required for a file-system watcher.
#[derive(Debug, Clone, Copy, PartialEq, Eq, Structural)]
pub struct FsEvent {
    pub id: SharedId,
    pub path: PathId,
    pub callback: CallbackId,
    /// Whether a watcher of the system is running.
    pub watching: bool,
    pub mode: WatchMode,
}

impl FsEvent {
    /// Starts watching for file events in the specified path. The watcher
    /// reports its events under the identifier of the resource.
    pub fn watch(&mut self, id: ResourceId) -> (effect: Effect)
        ensures
            *final(self) == (FsEvent { watching: true, ..*old(self) }),
            effect == Effect::StartWatch(id, old(self).path, old(self).mode),
    {
        self.watching = true;
        Effect::StartWatch(id, self.path, self.mode)
    }

    /// Runs the callback of the file-system watcher.
    pub fn run_callback(&self) -> (effect: Effect)
        ensures
            effect == Effect::FsEventCallback(self.callback, FsEventHandle { id: self.id }),
    {
        Effect::FsEventCallback(self.callback, self.handle())
    }

    /// Returns a handle to the resource.
    pub fn handle(&self) -> (handle: FsEventHandle)
        ensures
            handle.id == self.id,
    {
        FsEventHandle { id: self.id }
    }
}

impl Downcast for FsEvent {
    open spec fn of_kind() -> ResourceKind {
        ResourceKind::FsEvent
    }

    open spec fn as_resource(&self) -> ResourceView {
        ResourceView::FsEvent(*self)
    }

    fn downcast_ref(resource: &Resource) -> (inner: Option<&Self>) {
        match resource {
            Resource::FsEvent(fs_event) => Some(fs_event),
            _ => None,
        }
    }

    fn downcast_mut(resource: &mut Resource) -> (inner: Option<&mut Self>) {
        match resource {
            Resource::FsEvent(fs_event) => Some(fs_event),
            _ => None,
        }
    }
}

/// A handle to an active watcher.
#[derive(Debug, Clone, Copy, PartialEq, Eq, Structural)]
pub struct FsEventHandle {
    /// A shared reference to the watcher.
    pub id: SharedId,
}

impl FsEventHandle {
    /// Stops the watcher, the callback will no longer be called.
    pub fn stop(self, handle: &mut LoopHandle)
        ensures
            final(handle)@ == old(handle)@.queued(RequestView::FsEventStop(self.id)),
            old(handle)@.used(final(handle)@),
    {
        handle.fs_event_stop(self.id);
    }
}

} // verus!
