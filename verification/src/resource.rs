//! Resource identification, and the table of the resources that a loop tracks.
//!
//! Sockets, callbacks, errors, paths, units of work and channels live with the
//! driver of the loop. The library names them by number and never looks inside.

use crate::check::Check;
use crate::effect::{viewed, Effect};
use crate::event_loop::state::destroyed;
use crate::fs::FsWatcher;
use crate::fs_event::FsEvent;
use crate::task::Task;
use crate::tcp_listener::TcpListener;
use crate::tcp_stream::{StreamView, TcpStream};
use crate::timers::Timer;
use crate::tty::TtyReader;
use slotmap::{DefaultKey, Key, KeyData, SlotMap};
use vstd::prelude::*;

verus! {

/// Identifies a resource of the loop: the number form of a slot-map key.
pub type ResourceId = u64;

/// A reference that a handle shares with its resource. It is given out before
/// the resource is in the loop, and resolves to a [`ResourceId`] as long as the
/// resource is there.
pub type SharedId = u64;

/// The driver's number for a callback.
pub type CallbackId = u64;

/// The driver's number for a socket.
pub type SocketId = u64;

/// The driver's number for an error it has met.
pub type ErrorId = u64;

/// The driver's number for a path.
pub type PathId = u64;

/// The driver's number for a unit of work for the thread-pool.
pub type WorkId = u64;

/// The driver's number for a channel that stops a worker.
pub type ChannelId = u64;

/// The identifier that no resource ever has.
pub const NULL_ID: ResourceId = 0x1_ffff_ffff;

/// How many resources the slot map has room for.
pub const MAX_RESOURCES: usize = 0xffff_fffe;

/// How many identifiers can be given out without giving one out twice: a slot map
/// tells the uses of a slot apart by a version, which wraps around after as many
/// insertions and removals.
pub const KEY_LIMIT: u64 = 0x8000_0000;

/// Whether `id` is the number form of some slot-map key: its upper half, the
/// version of the slot, is odd.
pub open spec fn is_key(id: ResourceId) -> bool {
    id & 0x1_0000_0000 != 0
}

/// The kinds of resources.
#[derive(Debug, Clone, Copy, PartialEq, Eq, Structural)]
pub enum ResourceKind {
    Timer,
    TcpStream,
    TcpListener,
    Task,
    Check,
    FsEvent,
    FsWatcher,
    TtyReader,
}

/// All objects that are tracked by the event-loop.
#[derive(Debug, PartialEq, Eq)]
pub enum Resource {
    Timer(Timer),
    TcpStream(TcpStream),
    TcpListener(TcpListener),
    Task(Task),
    Check(Check),
    FsEvent(FsEvent),
    FsWatcher(FsWatcher),
    TtyReader(TtyReader),
}

/// What a [`Resource`] holds.
pub enum ResourceView {
    Timer(Timer),
    TcpStream(StreamView),
    TcpListener(TcpListener),
    Task(Task),
    Check(Check),
    FsEvent(FsEvent),
    FsWatcher(FsWatcher),
    TtyReader(TtyReader),
}

impl View for Resource {
    type V = ResourceView;

    open spec fn view(&self) -> ResourceView {
        match *self {
            Resource::Timer(timer) => ResourceView::Timer(timer),
            Resource::TcpStream(stream) => ResourceView::TcpStream(stream@),
            Resource::TcpListener(listener) => ResourceView::TcpListener(listener),
            Resource::Task(task) => ResourceView::Task(task),
            Resource::Check(check) => ResourceView::Check(check),
            Resource::FsEvent(fs_event) => ResourceView::FsEvent(fs_event),
            Resource::FsWatcher(watcher) => ResourceView::FsWatcher(watcher),
            Resource::TtyReader(reader) => ResourceView::TtyReader(reader),
        }
    }
}

impl ResourceView {
    /// The reference that the resource shares with its handles.
    pub open spec fn shared_id(self) -> SharedId {
        match self {
            ResourceView::Timer(timer) => timer.id,
            ResourceView::TcpStream(stream) => stream.id,
            ResourceView::TcpListener(listener) => listener.id,
            ResourceView::Task(task) => task.id,
            ResourceView::Check(check) => check.id,
            ResourceView::FsEvent(fs_event) => fs_event.id,
            ResourceView::FsWatcher(watcher) => watcher.id,
            ResourceView::TtyReader(reader) => reader.id,
        }
    }

    pub open spec fn kind(self) -> ResourceKind {
        match self {
            ResourceView::Timer(_) => ResourceKind::Timer,
            ResourceView::TcpStream(_) => ResourceKind::TcpStream,
            ResourceView::TcpListener(_) => ResourceKind::TcpListener,
            ResourceView::Task(_) => ResourceKind::Task,
            ResourceView::Check(_) => ResourceKind::Check,
            ResourceView::FsEvent(_) => ResourceKind::FsEvent,
            ResourceView::FsWatcher(_) => ResourceKind::FsWatcher,
            ResourceView::TtyReader(_) => ResourceKind::TtyReader,
        }
    }
}

impl Resource {
    /// The reference that the resource shares with its handles.
    pub fn shared_id(&self) -> (id: SharedId)
        ensures
            id == self@.shared_id(),
    {
        match self {
            Resource::Timer(timer) => timer.id,
            Resource::TcpStream(stream) => stream.id,
            Resource::TcpListener(listener) => listener.id,
            Resource::Task(task) => task.id,
            Resource::Check(check) => check.id,
            Resource::FsEvent(fs_event) => fs_event.id,
            Resource::FsWatcher(watcher) => watcher.id,
            Resource::TtyReader(reader) => reader.id,
        }
    }

    /// Implements any clean up actions.
    pub fn destroy(&mut self) -> (effects: Vec<Effect>)
        ensures
            (final(self)@, viewed(effects@)) == destroyed(old(self)@),
    {
        match self {
            Resource::TcpStream(stream) => stream.destroy(),
            _ => {
                let effects: Vec<Effect> = Vec::new();
                assert(viewed(effects@) =~= Seq::empty());
                effects
            },
        }
    }

    /// The kind of the resource.
    pub fn kind(&self) -> (kind: ResourceKind)
        ensures
            kind == self@.kind(),
    {
        match self {
            Resource::Timer(_) => ResourceKind::Timer,
            Resource::TcpStream(_) => ResourceKind::TcpStream,
            Resource::TcpListener(_) => ResourceKind::TcpListener,
            Resource::Task(_) => ResourceKind::Task,
            Resource::Check(_) => ResourceKind::Check,
            Resource::FsEvent(_) => ResourceKind::FsEvent,
            Resource::FsWatcher(_) => ResourceKind::FsWatcher,
            Resource::TtyReader(_) => ResourceKind::TtyReader,
        }
    }
}

/// Whether a resource of the given kind is stored under `id`.
pub open spec fn holds_kind(
    resources: Map<ResourceId, ResourceView>,
    id: ResourceId,
    kind: ResourceKind,
) -> bool {
    resources.contains_key(id) && resources[id].kind() == kind
}

/// The types that a [`Resource`] can be cast to.
pub trait Downcast: Sized {
    /// The kind of the resources of this type.
    spec fn of_kind() -> ResourceKind;

    /// The value as a resource.
    spec fn as_resource(&self) -> ResourceView;

    /// Casts a resource, if it is of this type.
    fn downcast_ref(resource: &Resource) -> (inner: Option<&Self>)
        ensures
            match inner {
                Some(inner) => inner.as_resource() == resource@,
                None => resource@.kind() != Self::of_kind(),
            },
    ;

    /// Casts a resource mutably, if it is of this type.
    fn downcast_mut(resource: &mut Resource) -> (inner: Option<&mut Self>)
        ensures
            match inner {
                Some(inner) => inner.as_resource() == old(resource)@ && final(resource)@
                    == final(inner).as_resource(),
                None => old(resource)@.kind() != Self::of_kind()
                    && final(resource)@ == old(resource)@,
            },
    ;
}

/// The slot map that stores the resources.
#[verifier::external_body]
pub struct SlotTable {
    inner: SlotMap<DefaultKey, Resource>,
}

/// The resources in a slot map, by the number form of their keys.
pub uninterp spec fn table_contents(table: SlotTable) -> Map<ResourceId, Resource>;

/// The keys, in number form, that a slot map does not give out before the version
/// of their slot has wrapped around: for every slot, those with the version that
/// the slot has or an earlier one.
pub uninterp spec fn table_spent(table: SlotTable) -> Set<ResourceId>;

/// Calls `slotmap::SlotMap::new`: the new map holds nothing, and no key is spent.
#[verifier::external_body]
fn table_new() -> (table: SlotTable)
    ensures
        table_contents(table).is_empty(),
        table_spent(table).is_empty(),
{
    SlotTable { inner: SlotMap::new() }
}

/// Calls `slotmap::SlotMap::len`: the number of stored resources.
#[verifier::external_body]
fn table_len(table: &SlotTable) -> (len: usize)
    ensures
        len == table_contents(*table).len(),
{
    table.inner.len()
}

/// Calls `slotmap::SlotMap::is_empty`: whether nothing is stored.
#[verifier::external_body]
fn table_is_empty(table: &SlotTable) -> (empty: bool)
    ensures
        empty == (table_contents(*table).len() == 0),
{
    table.inner.is_empty()
}

/// Calls `slotmap::SlotMap::insert`, which panics on a full map: the resource is
/// stored under a key that was not in use, is not the null key, and, as every
/// key, has an odd version. A slot is used anew under its next version, so the
/// key was not spent, and is from now on. Which of the free keys it is, the
/// contract leaves open.
#[verifier::external_body]
fn table_insert(table: &mut SlotTable, resource: Resource) -> (id: ResourceId)
    requires
        table_contents(*old(table)).len() < MAX_RESOURCES,
    ensures
        is_key(id),
        id != NULL_ID,
        !table_contents(*old(table)).contains_key(id),
        table_contents(*final(table)) == table_contents(*old(table)).insert(id, resource),
        !table_spent(*old(table)).contains(id),
        table_spent(*final(table)) == table_spent(*old(table)).insert(id),
{
    table.inner.insert(resource).data().as_ffi()
}

/// Calls `slotmap::SlotMap::get`: the resource that is stored under the key.
#[verifier::external_body]
fn table_get(table: &SlotTable, id: ResourceId) -> (found: Option<&Resource>)
    requires
        is_key(id),
    ensures
        match found {
            Some(resource) => table_contents(*table).contains_key(id) && *resource
                == table_contents(*table)[id],
            None => !table_contents(*table).contains_key(id),
        },
{
    table.inner.get(DefaultKey::from(KeyData::from_ffi(id)))
}

/// Calls `slotmap::SlotMap::get_mut`: the resource that is stored under the key,
/// which alone changes to what the caller leaves in its place. No version
/// changes.
#[verifier::external_body]
fn table_get_mut(table: &mut SlotTable, id: ResourceId) -> (found: Option<&mut Resource>)
    requires
        is_key(id),
    ensures
        match found {
            Some(resource) => table_contents(*old(table)).contains_key(id) && *resource
                == table_contents(*old(table))[id] && table_contents(*final(table))
                == table_contents(*old(table)).insert(id, *final(resource)),
            None => !table_contents(*old(table)).contains_key(id) && table_contents(*final(table))
                == table_contents(*old(table)),
        },
        table_spent(*final(table)) == table_spent(*old(table)),
{
    table.inner.get_mut(DefaultKey::from(KeyData::from_ffi(id)))
}

/// Calls `slotmap::SlotMap::remove`: takes out what is stored under the key. The
/// version of its slot goes up by one, which makes it an even one and spends no
/// further key. It wraps around only where the slot has had all its versions, and
/// its keys alone are as many as `KEY_LIMIT`.
#[verifier::external_body]
fn table_remove(table: &mut SlotTable, id: ResourceId) -> (removed: Option<Resource>)
    requires
        is_key(id),
    ensures
        table_contents(*final(table)) == table_contents(*old(table)).remove(id),
        match removed {
            Some(resource) => table_contents(*old(table)).contains_key(id) && resource
                == table_contents(*old(table))[id],
            None => !table_contents(*old(table)).contains_key(id),
        },
        table_spent(*old(table)).len() < KEY_LIMIT ==> table_spent(*final(table)) == table_spent(
            *old(table),
        ),
{
    table.inner.remove(DefaultKey::from(KeyData::from_ffi(id)))
}

/// Calls `slotmap::Key::null` on `slotmap::DefaultKey`: the null key, in number
/// form.
#[verifier::external_body]
pub(crate) fn null_id() -> (id: ResourceId)
    ensures
        id == NULL_ID,
{
    DefaultKey::null().data().as_ffi()
}

/// Calls `slotmap::KeyData::from_ffi` and `as_ffi` on its result: the key of a
/// number, in number form, which is the number with the lowest bit of the
/// version set.
#[verifier::external_body]
fn key_from_number(number: u64) -> (id: ResourceId)
    ensures
        id == number | 0x1_0000_0000,
{
    KeyData::from_ffi(number).as_ffi()
}

/// The poll token of a resource: its identifier as a machine word.
pub open spec fn token_of(id: ResourceId) -> usize {
    id as usize
}

/// The identifier that a poll token stands for.
pub open spec fn id_of_token(token: usize) -> ResourceId {
    (token as u64) | 0x1_0000_0000
}

/// Returns the token linked to a resource.
pub fn token(id: ResourceId) -> (token: usize)
    ensures
        token == token_of(id),
{
    id as usize
}

/// Returns the identifier of the resource that a token is linked to.
pub fn resource_of_token(token: usize) -> (id: ResourceId)
    ensures
        id == id_of_token(token),
        is_key(id),
{
    let id = key_from_number(token as u64);
    assert(((token as u64) | 0x1_0000_0000) & 0x1_0000_0000 != 0) by (bit_vector);
    id
}

/// A table of resources is sound: finite, and every identifier in it is the
/// number form of a key other than the null key.
pub open spec fn keys_sound(resources: Map<ResourceId, ResourceView>) -> bool {
    &&& resources.dom().finite()
    &&& forall|id: ResourceId| #[trigger]
        resources.contains_key(id) ==> is_key(id) && id != NULL_ID
}

/// An account of the identifiers that were given out is sound: it is finite and
/// knows that the null identifier was not.
pub open spec fn issued_sound(issued: Set<ResourceId>) -> bool {
    issued.finite() && !issued.contains(NULL_ID)
}

/// A struct that holds and manages resources.
pub struct ResourceMap {
    table: SlotTable,
    issued: Ghost<Set<ResourceId>>,
}

impl View for ResourceMap {
    type V = Map<ResourceId, ResourceView>;

    closed spec fn view(&self) -> Map<ResourceId, ResourceView> {
        table_contents(self.table).map_values(|resource: Resource| resource@)
    }
}

impl ResourceMap {
    /// The account of the identifiers that were given out is right: as long as no
    /// version can have wrapped around, they are the spent keys of the slot map.
    spec fn accounted(&self) -> bool {
        self.issued@.len() < KEY_LIMIT ==> self.issued@ == table_spent(self.table)
    }

    /// The identifiers that were given out so far. If there were no right account
    /// of them, these would be all that there are, the null identifier among them.
    pub closed spec fn issued(&self) -> Set<ResourceId> {
        if self.accounted() {
            self.issued@
        } else {
            Set::full()
        }
    }

    /// Creates an empty table.
    pub fn new() -> (map: Self)
        ensures
            map@ == Map::<ResourceId, ResourceView>::empty(),
            keys_sound(map@),
            map.issued() == Set::<ResourceId>::empty(),
            issued_sound(map.issued()),
    {
        let table = table_new();
        assert(table_spent(table) =~= Set::empty());
        let map = ResourceMap { table, issued: Ghost(Set::empty()) };
        assert(map@ =~= Map::empty());
        map
    }

    /// Returns the number of resources.
    pub fn len(&self) -> (len: usize)
        ensures
            len == self@.len(),
    {
        assert(self@.dom() =~= table_contents(self.table).dom());
        table_len(&self.table)
    }

    /// Returns true if there are no resources.
    pub fn is_empty(&self) -> (empty: bool)
        requires
            keys_sound(self@),
        ensures
            empty == (self@ == Map::<ResourceId, ResourceView>::empty()),
    {
        assert(self@.dom() =~= table_contents(self.table).dom());
        let empty = table_is_empty(&self.table);
        proof {
            if empty {
                assert(self@ =~= Map::empty());
            }
        }
        empty
    }

    /// Stores a resource and returns its identifier.
    pub fn insert(&mut self, resource: Resource) -> (id: ResourceId)
        requires
            keys_sound(old(self)@),
            old(self)@.len() < MAX_RESOURCES,
            issued_sound(old(self).issued()),
        ensures
            !old(self)@.contains_key(id),
            final(self)@ == old(self)@.insert(id, resource@),
            keys_sound(final(self)@),
            old(self).issued().len() < KEY_LIMIT ==> !old(self).issued().contains(id),
            final(self).issued() == old(self).issued().insert(id),
            issued_sound(final(self).issued()),
    {
        assert(self@.dom() =~= table_contents(self.table).dom());
        let id = table_insert(&mut self.table, resource);
        self.issued = Ghost(self.issued@.insert(id));
        assert(self@ =~= old(self)@.insert(id, resource@));
        id
    }

    /// Takes out a resource.
    pub fn remove(&mut self, id: ResourceId) -> (removed: Option<Resource>)
        requires
            keys_sound(old(self)@),
            issued_sound(old(self).issued()),
        ensures
            final(self)@ == old(self)@.remove(id),
            keys_sound(final(self)@),
            final(self).issued() == old(self).issued(),
            match removed {
                Some(resource) => old(self)@.contains_key(id) && resource@ == old(self)@[id],
                None => !old(self)@.contains_key(id),
            },
    {
        if id & 0x1_0000_0000 == 0 {
            assert(!self@.contains_key(id));
            assert(self@ =~= old(self)@.remove(id));
            return None;
        }
        let removed = table_remove(&mut self.table, id);
        assert(self@ =~= old(self)@.remove(id));
        removed
    }

    /// Returns a reference to a resource.
    pub fn get(&self, id: ResourceId) -> (found: Option<&Resource>)
        requires
            keys_sound(self@),
        ensures
            match found {
                Some(resource) => self@.contains_key(id) && resource@ == self@[id],
                None => !self@.contains_key(id),
            },
    {
        if id & 0x1_0000_0000 == 0 {
            assert(!self@.contains_key(id));
            return None;
        }
        table_get(&self.table, id)
    }

    /// Returns a mutable reference to a resource.
    pub fn get_mut(&mut self, id: ResourceId) -> (found: Option<&mut Resource>)
        requires
            keys_sound(old(self)@),
        ensures
            match found {
                Some(resource) => old(self)@.contains_key(id) && resource@ == old(self)@[id]
                    && final(self)@ =~= old(self)@.insert(id, (*final(resource))@),
                None => !old(self)@.contains_key(id) && final(self)@ == old(self)@,
            },
            final(self).issued() == old(self).issued(),
    {
        if id & 0x1_0000_0000 == 0 {
            assert(!self@.contains_key(id));
            return None;
        }
        table_get_mut(&mut self.table, id)
    }

    /// Returns a reference to a downcasted resource type.
    pub fn get_as<T: Downcast>(&self, id: ResourceId) -> (found: Option<&T>)
        requires
            keys_sound(self@),
        ensures
            match found {
                Some(inner) => self@.contains_key(id) && inner.as_resource() == self@[id],
                None => !holds_kind(self@, id, T::of_kind()),
            },
    {
        match self.get(id) {
            Some(resource) => T::downcast_ref(resource),
            None => None,
        }
    }

    /// Returns a mutable reference to a downcasted resource type.
    pub fn get_mut_as<T: Downcast>(&mut self, id: ResourceId) -> (found: Option<&mut T>)
        requires
            keys_sound(old(self)@),
        ensures
            match found {
                Some(inner) => old(self)@.contains_key(id) && inner.as_resource() == old(self)@[id]
                    && final(self)@ == old(self)@.insert(id, final(inner).as_resource()),
                None => !holds_kind(old(self)@, id, T::of_kind()) && final(self)@ =~= old(self)@,
            },
            final(self).issued() == old(self).issued(),
    {
        match self.get_mut(id) {
            Some(resource) => T::downcast_mut(resource),
            None => None,
        }
    }
}

} // verus!
