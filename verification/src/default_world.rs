//! The world as most programs want it: with the spatial index and the hooks
//! of the components that come with the runtime.

use vstd::prelude::*;
use crate::base_components::{children_reaction, Children, Position};
use crate::component::{type_id_of, ComponentInstanceId, ComponentView};
use crate::entity_id::{EntityAllocator, EntityId};
use crate::hook::ChangeHook;
use crate::position_map::{position_map_key, position_requests, PositionMap};
use crate::query::ChangeView;
use crate::resource::{RequestView, ResourceKey};
use crate::world::WorldBuilder;

verus! {

pub struct DefaultWorld {}

/// Whether the hooks are those of the default world: the position rule on
/// `Position`, then the children rule on `Children`.
pub open spec fn default_hooks(hooks: Seq<ChangeHook>) -> bool {
    &&& hooks.len() == 2
    &&& hooks[0].component_type() == Some(type_id_of::<Position>())
    &&& hooks[1].component_type() == Some(type_id_of::<Children>())
    &&& forall|change: ChangeView, components: Map<ComponentInstanceId, ComponentView>|
        #![trigger hooks[0].rule_reaction(change, components)]
        hooks[0].rule_reaction(change, components) == Seq::<ChangeView>::empty()
    &&& forall|change: ChangeView, components: Map<ComponentInstanceId, ComponentView>|
        #![trigger hooks[0].rule_requests(change, components)]
        hooks[0].rule_requests(change, components) == position_requests(change, components)
    &&& forall|change: ChangeView, components: Map<ComponentInstanceId, ComponentView>|
        #![trigger hooks[1].rule_reaction(change, components)]
        hooks[1].rule_reaction(change, components) == children_reaction(change, components)
    &&& forall|change: ChangeView, components: Map<ComponentInstanceId, ComponentView>|
        #![trigger hooks[1].rule_requests(change, components)]
        hooks[1].rule_requests(change, components) == Seq::<RequestView>::empty()
}

impl DefaultWorld {
    /// A builder of a world that has the spatial index as a resource, the
    /// position rule as a hook on `Position`, and the children rule as a
    /// hook on `Children`, in this order.
    pub fn get() -> (builder: WorldBuilder)
        ensures
            builder.world().wf(),
            builder.world()@ == Map::<ComponentInstanceId, ComponentView>::empty(),
            builder.world().resource_keys() == Set::<ResourceKey>::empty().insert(
                position_map_key(),
            ),
            builder.world().holds_position_map(Map::<EntityId, (i32, i32)>::empty(), true),
            builder.world().undelivered() == 0,
            builder.world().allocator() == (EntityAllocator { next: 0, stride: 1 }),
            default_hooks(builder.world().hooks()),
            !builder.world().has_loader(),
    {
        let first = WorldBuilder::new().with_resource(PositionMap::new());
        let second = first.with_change_hook(ChangeHook::position());
        let third = second.with_change_hook(ChangeHook::children());
        proof {
            let hooks = third.world().hooks();
            assert(hooks.len() == 2);
            assert(hooks[0] == second.world().hooks()[0]);
            let positions = Map::<EntityId, (i32, i32)>::empty();
            first.world().lemma_position_map_written(
                positions,
                true,
                Seq::empty(),
                second.world(),
            );
            second.world().lemma_position_map_written(
                positions,
                true,
                Seq::empty(),
                third.world(),
            );
        }
        third
    }
}

} // verus!
