//! A buffer of commands for the world.

use vstd::prelude::*;
use crate::component::ComponentInstanceId;
use crate::entity_id::EntityId;
use crate::resource::{RequestView, ResourceRequest};
use crate::resource_writer::request_views;

verus! {

/// Collects what is to be removed from or unloaded from the world, and the
/// resource writes to be made, each kind in the order in which it was asked
/// for.
pub struct Command {
    removed_entities: Vec<EntityId>,
    removed_components: Vec<ComponentInstanceId>,
    unloaded_entities: Vec<ComponentInstanceId>,
    unloaded_components: Vec<ComponentInstanceId>,
    resource_writes: Vec<ResourceRequest>,
}

impl Command {
    /// The entities to be removed.
    pub closed spec fn removed_entities(&self) -> Seq<EntityId> {
        self.removed_entities@
    }

    /// The components to be removed.
    pub closed spec fn removed_components(&self) -> Seq<ComponentInstanceId> {
        self.removed_components@
    }

    /// The entities to be unloaded.
    pub closed spec fn unloaded_entities(&self) -> Seq<ComponentInstanceId> {
        self.unloaded_entities@
    }

    /// The components to be unloaded.
    pub closed spec fn unloaded_components(&self) -> Seq<ComponentInstanceId> {
        self.unloaded_components@
    }

    /// The resource writes to be made.
    pub closed spec fn resource_writes(&self) -> Seq<RequestView> {
        request_views(self.resource_writes@)
    }

    /// Whether `after` differs from `self` at most in what `part` names: 0 the
    /// entities to be removed, 1 the components to be removed, 2 the entities
    /// to be unloaded, 3 the components to be unloaded, 4 the resource writes.
    pub open spec fn same_but(&self, after: Command, part: int) -> bool {
        &&& part != 0 ==> after.removed_entities() == self.removed_entities()
        &&& part != 1 ==> after.removed_components() == self.removed_components()
        &&& part != 2 ==> after.unloaded_entities() == self.unloaded_entities()
        &&& part != 3 ==> after.unloaded_components() == self.unloaded_components()
        &&& part != 4 ==> after.resource_writes() == self.resource_writes()
    }

    pub fn new() -> (command: Self)
        ensures
            command.removed_entities() == Seq::<EntityId>::empty(),
            command.removed_components() == Seq::<ComponentInstanceId>::empty(),
            command.unloaded_entities() == Seq::<ComponentInstanceId>::empty(),
            command.unloaded_components() == Seq::<ComponentInstanceId>::empty(),
            command.resource_writes() == Seq::<RequestView>::empty(),
    {
        let command = Command {
            removed_entities: Vec::new(),
            removed_components: Vec::new(),
            unloaded_entities: Vec::new(),
            unloaded_components: Vec::new(),
            resource_writes: Vec::new(),
        };
        assert(command.resource_writes() =~= Seq::<RequestView>::empty());
        command
    }

    pub fn remove_entity(&mut self, id: EntityId)
        ensures
            final(self).removed_entities() == old(self).removed_entities().push(id),
            old(self).same_but(*final(self), 0),
    {
        self.removed_entities.push(id);
    }

    pub fn remove_component(&mut self, id: ComponentInstanceId)
        ensures
            final(self).removed_components() == old(self).removed_components().push(id),
            old(self).same_but(*final(self), 1),
    {
        self.removed_components.push(id);
    }

    pub fn unload_entity(&mut self, id: ComponentInstanceId)
        ensures
            final(self).unloaded_entities() == old(self).unloaded_entities().push(id),
            old(self).same_but(*final(self), 2),
    {
        self.unloaded_entities.push(id);
    }

    pub fn unload_component(&mut self, id: ComponentInstanceId)
        ensures
            final(self).unloaded_components() == old(self).unloaded_components().push(id),
            old(self).same_but(*final(self), 3),
    {
        self.unloaded_components.push(id);
    }

    pub fn get_removed_entities(&self) -> (entities: &Vec<EntityId>)
        ensures
            entities@ == self.removed_entities(),
    {
        &self.removed_entities
    }

    pub fn get_removed_components(&self) -> (components: &Vec<ComponentInstanceId>)
        ensures
            components@ == self.removed_components(),
    {
        &self.removed_components
    }

    pub fn get_unloaded_entities(&self) -> (entities: &Vec<ComponentInstanceId>)
        ensures
            entities@ == self.unloaded_entities(),
    {
        &self.unloaded_entities
    }

    pub fn get_unloaded_components(&self) -> (components: &Vec<ComponentInstanceId>)
        ensures
            components@ == self.unloaded_components(),
    {
        &self.unloaded_components
    }

    /// Queues a resource write behind those already there.
    pub fn write_resource(&mut self, request: ResourceRequest)
        ensures
            final(self).resource_writes() == old(self).resource_writes().push(request@),
            old(self).same_but(*final(self), 4),
    {
        self.resource_writes.push(request);
        assert(self.resource_writes() =~= old(self).resource_writes().push(request@));
    }

    /// The queued resource writes, oldest first.
    pub fn get_resource_writes(&self) -> (requests: &Vec<ResourceRequest>)
        ensures
            request_views(requests@) == self.resource_writes(),
    {
        &self.resource_writes
    }
}

impl Default for Command {
    fn default() -> (command: Self)
        ensures
            command.removed_entities() == Seq::<EntityId>::empty(),
            command.resource_writes() == Seq::<RequestView>::empty(),
    {
        Self::new()
    }
}

} // verus!
