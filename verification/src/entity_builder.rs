//! Staged construction of entities.

use vstd::prelude::*;
use crate::component::{component_views, ComponentType, ComponentView, UntypedComponent};
use crate::entity_id::EntityId;

verus! {

/// A place that new entities can be spawned into.
pub trait SpawnLocation: Sized {
    /// Whether the place can take a spawn.
    spec fn ready(&self) -> bool;

    /// How the place after a spawn of `components` relates to `self`, the
    /// place before it.
    spec fn spawned(&self, components: Seq<ComponentView>, after: Self) -> bool;

    /// Takes the components of one new entity.
    fn spawn(&mut self, components: Vec<UntypedComponent>)
        requires
            old(self).ready(),
        ensures
            old(self).spawned(component_views(components@), *final(self)),
            final(self).ready(),
    ;
}

/// Collects the components of one new entity and hands them over together.
///
/// The builder holds the identifier of the entity from the start, so that
/// components can refer to it before it is spawned.
pub struct EntityBuilder<'spawner, L: SpawnLocation> {
    pub spawn_location: &'spawner mut L,
    pub id: EntityId,
    pub components: Vec<UntypedComponent>,
}

impl<'spawner, L: SpawnLocation> EntityBuilder<'spawner, L> {
    /// A builder for the entity `id`, without components yet.
    pub fn new(spawn_location: &'spawner mut L, id: EntityId) -> (builder: Self)
        ensures
            builder.id == id,
            builder.components@ == Seq::<UntypedComponent>::empty(),
            *builder.spawn_location == *old(spawn_location),
            *final(builder.spawn_location) == *final(spawn_location),
    {
        EntityBuilder { spawn_location, id, components: Vec::new() }
    }

    /// Adds a component to the entity under construction.
    pub fn with<T: ComponentType>(self, component: T) -> (builder: Self)
        ensures
            builder.id == self.id,
            component_views(builder.components@) == component_views(self.components@).push(
                ComponentView {
                    id: crate::component::instance_id_of::<T>(self.id),
                    data: component.encoding(),
                },
            ),
            *builder.spawn_location == *old(self.spawn_location),
            *final(builder.spawn_location) == *final(self.spawn_location),
    {
        let mut builder = self;
        let untyped = UntypedComponent::new(component, builder.id);
        builder.components.push(untyped);
        assert(component_views(builder.components@) =~= component_views(self.components@).push(
            untyped@,
        ));
        builder
    }

    /// Spawns the entity: its components go to the spawn location, which
    /// turns them into one `AddComponent` change each.
    pub fn spawn(self) -> (id: EntityId)
        requires
            old(self.spawn_location).ready(),
        ensures
            id == self.id,
            old(self.spawn_location).spawned(
                component_views(self.components@),
                *final(self.spawn_location),
            ),
            final(self.spawn_location).ready(),
    {
        let EntityBuilder { spawn_location, id, components } = self;
        spawn_location.spawn(components);
        id
    }
}

} // verus!
