//! Tasks, which run on the thread-pool and report back to the loop.

use crate::effect::Effect;
use crate::event_loop::LoopHandle;
use crate::event_loop::RequestView;
use crate::resource::{
    CallbackId, ChannelId, Downcast, Resource, ResourceKind, ResourceView, SharedId,
};
use vstd::prelude::*;

verus! {

/// The data required for a task resource.
#[derive(Debug, Clone, Copy, PartialEq, Eq, Structural)]
pub struct Task {
    pub id: SharedId,
    pub on_complete: Option<CallbackId>,
    pub cancelation: ChannelId,
}

impl Task {
    /// Runs the callback of the task, at most once.
    pub fn run_callback(&mut self) -> (effects: Vec<Effect>)
        ensures
            final(self).on_complete is None,
            final(self).id == old(self).id,
            final(self).cancelation == old(self).cancelation,
            effects@ == (match old(self).on_complete {
                Some(callback) => seq![Effect::TaskCallback(callback)],
                None => Seq::empty(),
            }),
    {
        let mut effects: Vec<Effect> = Vec::new();
        if let Some(callback) = self.on_complete.take() {
            effects.push(Effect::TaskCallback(callback));
        }
        effects
    }

    /// Returns a handle to the task resource.
    pub fn handle(&self) -> (handle: TaskHandle)
        ensures
            handle == (TaskHandle { id: self.id, cancelation: self.cancelation }),
    {
        TaskHandle { id: self.id, cancelation: self.cancelation }
    }
}

impl Downcast for Task {
    open spec fn of_kind() -> ResourceKind {
        ResourceKind::Task
    }

    open spec fn as_resource(&self) -> ResourceView {
        ResourceView::Task(*self)
    }

    fn downcast_ref(resource: &Resource) -> (inner: Option<&Self>) {
        match resource {
            Resource::Task(task) => Some(task),
            _ => None,
        }
    }

    fn downcast_mut(resource: &mut Resource) -> (inner: Option<&mut Self>) {
        match resource {
            Resource::Task(task) => Some(task),
            _ => None,
        }
    }
}

/// A reference like struct to a running or finished task.
#[derive(Debug, Clone, Copy, PartialEq, Eq, Structural)]
pub struct TaskHandle {
    /// A shared reference to the spawned task.
    pub id: SharedId,
    /// The channel that takes cancelation notifications.
    pub cancelation: ChannelId,
}

impl TaskHandle {
    /// Cancels the queued task. This will only succeed if no worker thread
    /// has started processing it yet. Once a worker has picked up the
    /// task for execution, it cannot be stopped.
    ///
    /// Returns the channel on which to notify the worker.
    pub fn cancel(&self, handle: &mut LoopHandle) -> (notify: ChannelId)
        ensures
            notify == self.cancelation,
            final(handle)@ == old(handle)@.queued(RequestView::TaskCancel(self.id)),
            old(handle)@.used(final(handle)@),
    {
        handle.cancel_task(self.id);
        self.cancelation
    }
}

} // verus!
