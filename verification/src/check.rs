//! Check resources, which run once per loop iteration.

use crate::event_loop::LoopHandle;
use crate::event_loop::RequestView;
use crate::effect::Effect;
use crate::resource::{CallbackId, Downcast, Resource, ResourceKind, ResourceView, SharedId};
use vstd::prelude::*;

verus! {

/// Check resources will run the given callback once per loop iteration.
#[derive(Debug, Clone, Copy, PartialEq, Eq, Structural)]
pub struct Check {
    pub id: SharedId,
    pub callback: CallbackId,
}

impl Check {
    /// Returns a handle to the check resource.
    pub fn handle(&self) -> (handle: CheckHandle)
        ensures
            handle.id == self.id,
    {
        CheckHandle { id: self.id }
    }

    /// Runs the callback of the check.
    pub fn run_callback(&self) -> (effect: Effect)
        ensures
            effect == Effect::CheckCallback(self.callback, CheckHandle { id: self.id }),
    {
        Effect::CheckCallback(self.callback, self.handle())
    }
}

impl Downcast for Check {
    open spec fn of_kind() -> ResourceKind {
        ResourceKind::Check
    }

    open spec fn as_resource(&self) -> ResourceView {
        ResourceView::Check(*self)
    }

    fn downcast_ref(resource: &Resource) -> (inner: Option<&Self>) {
        match resource {
            Resource::Check(check) => Some(check),
            _ => None,
        }
    }

    fn downcast_mut(resource: &mut Resource) -> (inner: Option<&mut Self>) {
        match resource {
            Resource::Check(check) => Some(check),
            _ => None,
        }
    }
}

/// A reference to the check resource.
#[derive(Debug, Clone, Copy, PartialEq, Eq, Structural)]
pub struct CheckHandle {
    /// A shared reference to the check.
    pub id: SharedId,
}

impl CheckHandle {
    /// The check callback will no longer be called.
    pub fn remove(&self, handle: &mut LoopHandle)
        ensures
            final(handle)@ == old(handle)@.queued(RequestView::CheckRemove(self.id)),
            old(handle)@.used(final(handle)@),
    {
        handle.check_remove(self.id);
    }
}

} // verus!
