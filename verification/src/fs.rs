//! File-system watchers, which report changes or the failure to see them.

use crate::effect::Effect;
use crate::event_loop::LoopHandle;
use crate::event_loop::RequestView;
use crate::resource::{
    CallbackId, Downcast, PathId, Resource, ResourceId, ResourceKind, ResourceView, SharedId,
};
use vstd::prelude::*;

verus! {

/// How much of a path is watched.
#[derive(Debug, Clone, Copy, PartialEq, Eq, Structural)]
pub enum WatchMode {
    /// The path and everything below it.
    Recursive,
    /// The path alone.
    NonRecursive,
}

/// The data required for a file-system watcher.
#[derive(Debug, Clone, Copy, PartialEq, Eq, Structural)]
pub struct FsWatcher {
    pub id: SharedId,
    pub path: PathId,
    pub callback: CallbackId,
    /// Whether a watcher of the system is running.
    pub watching: bool,
    pub mode: WatchMode,
}

impl FsWatcher {
    /// Starts watching for file events in the specified path. The watcher
    /// reports its events under the identifier of the resource.
    pub fn watch(&mut self, id: ResourceId) -> (effect: Effect)
        ensures
            *final(self) == (FsWatcher { watching: true, ..*old(self) }),
            effect == Effect::StartWatch(id, old(self).path, old(self).mode),
    {
        self.watching = true;
        Effect::StartWatch(id, self.path, self.mode)
    }

    /// Runs the callback of the file-system watcher.
    pub fn run_callback(&self) -> (effect: Effect)
        ensures
            effect == Effect::FsWatcherCallback(self.callback, FsWatcherHandle { id: self.id }),
    {
        Effect::FsWatcherCallback(self.callback, self.handle())
    }

    /// Returns a handle to the resource.
    pub fn handle(&self) -> (handle: FsWatcherHandle)
        ensures
            handle.id == self.id,
    {
        FsWatcherHandle { id: self.id }
    }
}

impl Downcast for FsWatcher {
    open spec fn of_kind() -> ResourceKind {
        ResourceKind::FsWatcher
    }

    open spec fn as_resource(&self) -> ResourceView {
        ResourceView::FsWatcher(*self)
    }

    fn downcast_ref(resource: &Resource) -> (inner: Option<&Self>) {
        match resource {
            Resource::FsWatcher(watcher) => Some(watcher),
            _ => None,
        }
    }

    fn downcast_mut(resource: &mut Resource) -> (inner: Option<&mut Self>) {
        match resource {
            Resource::FsWatcher(watcher) => Some(watcher),
            _ => None,
        }
    }
}

/// A handle to an active watcher.
#[derive(Debug, Clone, Copy, PartialEq, Eq, Structural)]
pub struct FsWatcherHandle {
    /// A shared reference to the watcher.
    pub id: SharedId,
}

impl FsWatcherHandle {
    /// Stops the watcher, the callback will no longer be called.
    pub fn stop(&self, handle: &mut LoopHandle)
        ensures
            final(handle)@ == old(handle)@.queued(RequestView::FsWatcherStop(self.id)),
            old(handle)@.used(final(handle)@),
    {
        handle.fs_watcher_stop(self.id);
    }
}

} // verus!
