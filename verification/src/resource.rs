//! Resources: shared, long-lived singletons outside the entity model.
//!
//! A resource is registered under a key, the hash of its canonical name. The
//! runtime does not look inside a resource: it hands it requests, one at a
//! time, and the resource decides what they mean.

use vstd::prelude::*;
use crate::entity_id::EntityId;
use crate::hashing::{hash_of_name, string_hash};
use crate::lore::BookView;

verus! {

/// Names a resource: the hash of the resource's canonical name.
#[derive(Clone, Copy, PartialEq, Eq, Hash, Debug, Structural)]
pub struct ResourceKey(pub u64);

/// What a request says, as plain values.
pub struct RequestView {
    pub key: ResourceKey,
    pub operation: u64,
    pub entity: EntityId,
    pub arguments: Seq<i64>,
}

/// A message for one resource: which operation it asks for, the entity it
/// concerns, and the operation's arguments.
#[derive(Debug)]
pub struct ResourceRequest {
    pub key: ResourceKey,
    pub operation: u64,
    pub entity: EntityId,
    pub arguments: Vec<i64>,
}

impl View for ResourceRequest {
    type V = RequestView;

    open spec fn view(&self) -> RequestView {
        RequestView {
            key: self.key,
            operation: self.operation,
            entity: self.entity,
            arguments: self.arguments@,
        }
    }
}

impl Clone for ResourceRequest {
    fn clone(&self) -> (copy: Self)
        ensures
            copy@ == self@,
    {
        let arguments = self.arguments.clone();
        assert(arguments@ =~= self.arguments@);
        ResourceRequest {
            key: self.key,
            operation: self.operation,
            entity: self.entity,
            arguments,
        }
    }
}

/// What a resource holds, as plain values.
pub enum ResourceState {
    /// The point of each entity on the spatial index.
    Positions(Map<EntityId, (i32, i32)>),
    /// The entries and the tag tables of a lorebook.
    Lore(BookView),
    /// What a resource of the program's own holds.
    Other(Seq<int>),
}

/// A resource. `write` runs under exclusive access, after the changes of a
/// stage have landed; `read` runs under shared access and leaves the resource
/// as it is.
///
/// `state` says what the resource holds and `sound` whether its invariant
/// holds. `after` and `answers` say how the resource behaves: what a write
/// makes of a state, and what may be answered to a request in a state. A
/// write changes what a resource holds, never how it behaves.
pub trait Resource: Send + Sync {
    /// The key the resource is registered under. A resource that does not
    /// say what it is leaves it open.
    open spec fn registered_key(&self) -> ResourceKey {
        arbitrary()
    }

    /// What the resource holds. A resource that does not say leaves it open.
    open spec fn state(&self) -> ResourceState {
        arbitrary()
    }

    /// Whether the invariant of the resource holds. A resource that does not
    /// say leaves it open.
    open spec fn sound(&self) -> bool {
        arbitrary()
    }

    /// What a resource of this kind holds after `request` is written to one
    /// that holds `state`. A resource that does not say leaves it open.
    open spec fn after(&self, state: ResourceState, request: RequestView) -> ResourceState {
        arbitrary()
    }

    /// Whether a resource of this kind that holds `state` may give `answer`
    /// to `request`. A resource that does not say leaves it open.
    open spec fn answers(&self, state: ResourceState, request: RequestView, answer: Seq<i64>) -> bool {
        arbitrary()
    }

    fn key(&self) -> (key: ResourceKey)
        ensures
            key == self.registered_key(),
    ;

    fn write(&mut self, request: &ResourceRequest)
        ensures
            final(self).state() == old(self).after(old(self).state(), request@),
            old(self).sound() ==> final(self).sound(),
            final(self).registered_key() == old(self).registered_key(),
            forall|state: ResourceState, other: RequestView|
                #![trigger final(self).after(state, other)]
                final(self).after(state, other) == old(self).after(state, other),
            forall|state: ResourceState, other: RequestView, answer: Seq<i64>|
                #![trigger final(self).answers(state, other, answer)]
                final(self).answers(state, other, answer) == old(self).answers(
                    state,
                    other,
                    answer,
                ),
    ;

    fn read(&self, request: &ResourceRequest) -> (answer: Vec<i64>)
        ensures
            self.sound() ==> self.answers(self.state(), request@, answer@),
    ;
}

/// The key that belongs to a canonical name.
pub open spec fn resource_key_of_name(name: Seq<char>) -> ResourceKey {
    ResourceKey(hash_of_name(name))
}

/// The key of the resource registered under `name`.
pub fn get_resource_id(name: &str) -> (key: ResourceKey)
    ensures
        key == resource_key_of_name(name@),
{
    ResourceKey(string_hash(name))
}

/// A resource of any type, held as the resource it is.
pub struct HeldResource<R: Resource> {
    pub inner: R,
}

impl<R: Resource> Resource for HeldResource<R> {
    open spec fn registered_key(&self) -> ResourceKey {
        self.inner.registered_key()
    }

    open spec fn state(&self) -> ResourceState {
        self.inner.state()
    }

    open spec fn sound(&self) -> bool {
        self.inner.sound()
    }

    open spec fn after(&self, state: ResourceState, request: RequestView) -> ResourceState {
        self.inner.after(state, request)
    }

    open spec fn answers(&self, state: ResourceState, request: RequestView, answer: Seq<i64>) -> bool {
        self.inner.answers(state, request, answer)
    }

    fn key(&self) -> (key: ResourceKey) {
        self.inner.key()
    }

    fn write(&mut self, request: &ResourceRequest) {
        self.inner.write(request);
    }

    fn read(&self, request: &ResourceRequest) -> (answer: Vec<i64>) {
        self.inner.read(request)
    }
}

} // verus!
