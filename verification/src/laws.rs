//! Laws of the runtime: what holds of queries, of write-back, of the store
//! and of the pipeline, whatever the world holds.

use vstd::prelude::*;
use crate::base_components::{
    adoption, adoptions, children_reaction, parent_reaction, without, Children, Parent, Position,
};
use crate::component::ComponentType;
use crate::position_map::{position_requests, position_step};
use crate::codec::{entities_of_bytes, entity_bytes, lemma_entity_bytes, u64_of_bytes};
use crate::component::{
    instance_id_of, type_id_of, ComponentInstanceId, ComponentTypeId, ComponentView,
};
use crate::entity_id::{EntityAllocator, EntityId};
use crate::world::{counter_after, lemma_counter_after, stage_allocator, World};
use crate::hook::ChangeHook;
use crate::pipeline::{applied, fan_out, fan_out_requests, reactions_of, requested, rounds};
use crate::query::{ChangeType, ChangeView, ComponentGroup, QueryResult};
use crate::store::{answers, committed, committed_all, is_match, owners, Store};

verus! {

/// The entities that the groups of a query result stand for.
pub open spec fn group_ids(groups: Seq<ComponentGroup>) -> Set<EntityId> {
    Set::new(|entity: EntityId| exists|i: int| 0 <= i < groups.len() && (#[trigger] groups[i]).id() == entity)
}

/// The entities that carry a component of the type `type_id`.
pub open spec fn carriers_of(
    components: Map<ComponentInstanceId, ComponentView>,
    type_id: ComponentTypeId,
) -> Set<EntityId> {
    Set::new(|entity: EntityId| components.contains_key(ComponentInstanceId(entity, type_id)))
}

/// The answer to a query stands for exactly the entities that match it.
pub proof fn lemma_answer_ids(
    components: Map<ComponentInstanceId, ComponentView>,
    types: Set<ComponentTypeId>,
    groups: Seq<ComponentGroup>,
)
    requires
        answers(components, types, groups),
    ensures
        group_ids(groups) == Set::new(|entity: EntityId| is_match(components, types, entity)),
{
    assert forall|entity: EntityId|
        group_ids(groups).contains(entity) == is_match(components, types, entity) by {
        if group_ids(groups).contains(entity) {
            let i = choose|i: int| 0 <= i < groups.len() && (#[trigger] groups[i]).id() == entity;
            assert(is_match(components, types, groups[i].id()));
        }
    }
    assert(group_ids(groups) =~= Set::new(
        |entity: EntityId| is_match(components, types, entity),
    ));
}

/// A query for no component type has an empty answer.
pub proof fn lemma_empty_query(
    components: Map<ComponentInstanceId, ComponentView>,
    groups: Seq<ComponentGroup>,
)
    requires
        answers(components, Set::<ComponentTypeId>::empty(), groups),
    ensures
        groups.len() == 0,
{
    if groups.len() > 0 {
        assert(is_match(components, Set::<ComponentTypeId>::empty(), groups[0].id()));
    }
}

/// A query for one component type is answered with exactly the entities that
/// carry a component of that type.
pub proof fn lemma_single_query(
    components: Map<ComponentInstanceId, ComponentView>,
    type_id: ComponentTypeId,
    groups: Seq<ComponentGroup>,
)
    requires
        answers(components, Set::<ComponentTypeId>::empty().insert(type_id), groups),
    ensures
        group_ids(groups) == carriers_of(components, type_id),
{
    let types = Set::<ComponentTypeId>::empty().insert(type_id);
    lemma_answer_ids(components, types, groups);
    assert forall|entity: EntityId|
        is_match(components, types, entity) == carriers_of(components, type_id).contains(
            entity,
        ) by {
        assert(types.contains(type_id));
    }
    assert(group_ids(groups) =~= carriers_of(components, type_id));
}

/// The answer to a query for two component types does not depend on the
/// order in which the types are named.
pub proof fn lemma_query_order(
    components: Map<ComponentInstanceId, ComponentView>,
    first: ComponentTypeId,
    second: ComponentTypeId,
    one_way: Seq<ComponentGroup>,
    other_way: Seq<ComponentGroup>,
)
    requires
        answers(
            components,
            Set::<ComponentTypeId>::empty().insert(first).insert(second),
            one_way,
        ),
        answers(
            components,
            Set::<ComponentTypeId>::empty().insert(second).insert(first),
            other_way,
        ),
    ensures
        group_ids(one_way) == group_ids(other_way),
{
    let forth = Set::<ComponentTypeId>::empty().insert(first).insert(second);
    let back = Set::<ComponentTypeId>::empty().insert(second).insert(first);
    assert(forth =~= back);
    lemma_answer_ids(components, forth, one_way);
    lemma_answer_ids(components, back, other_way);
}

/// The answer to a query for two component types is the intersection of the
/// answers to the queries for each of them: every entity in it is in both,
/// and every entity in both is in it.
pub proof fn lemma_query_intersection(
    components: Map<ComponentInstanceId, ComponentView>,
    first: ComponentTypeId,
    second: ComponentTypeId,
    both: Seq<ComponentGroup>,
    only_first: Seq<ComponentGroup>,
    only_second: Seq<ComponentGroup>,
)
    requires
        answers(components, Set::<ComponentTypeId>::empty().insert(first).insert(second), both),
        answers(components, Set::<ComponentTypeId>::empty().insert(first), only_first),
        answers(components, Set::<ComponentTypeId>::empty().insert(second), only_second),
    ensures
        group_ids(both) == group_ids(only_first).intersect(group_ids(only_second)),
{
    let pair = Set::<ComponentTypeId>::empty().insert(first).insert(second);
    lemma_answer_ids(components, pair, both);
    lemma_single_query(components, first, only_first);
    lemma_single_query(components, second, only_second);
    assert forall|entity: EntityId|
        is_match(components, pair, entity) == (carriers_of(components, first).contains(entity)
            && carriers_of(components, second).contains(entity)) by {
        assert(pair.contains(first) && pair.contains(second));
    }
    assert(group_ids(both) =~= group_ids(only_first).intersect(group_ids(only_second)));
}

/// A group none of whose components was written dissolves into no change.
pub proof fn lemma_clean_group(group: ComponentGroup, changes: Seq<ChangeView>)
    requires
        group.dirty() == Set::<ComponentTypeId>::empty(),
        group.emits(changes),
    ensures
        changes.len() == 0,
{
    let types = choose|types: Seq<ComponentTypeId>|
        {
            &&& types.no_duplicates()
            &&& types.to_set() == group.dirty()
            &&& #[trigger] types.len() == changes.len()
            &&& forall|i: int|
                0 <= i < changes.len() ==> changes[i] == (ChangeView {
                    component: group.components()[types[i]],
                    kind: group.change_kind(),
                })
        };
    if types.len() > 0 {
        assert(types.to_set().contains(types[0]));
    }
}

/// A system that only reads emits no change: a query result in which no
/// component was written dissolves into nothing.
pub proof fn lemma_read_only(result: QueryResult, changes: Seq<ChangeView>)
    requires
        forall|i: int|
            0 <= i < result.groups().len() ==> (#[trigger] result.groups()[i]).dirty() == Set::<
                ComponentTypeId,
            >::empty(),
        result.dissolves_to(changes),
    ensures
        changes.len() == 0,
{
    let parts = choose|parts: Seq<Seq<ChangeView>>|
        {
            &&& #[trigger] parts.len() == result.groups().len()
            &&& forall|i: int|
                0 <= i < parts.len() ==> result.groups()[i].emits(#[trigger] parts[i])
            &&& changes == parts.flatten()
        };
    assert forall|i: int| 0 <= i < parts.len() implies (#[trigger] parts[i]).len() == 0 by {
        lemma_clean_group(result.groups()[i], parts[i]);
    }
    lemma_flatten_of_empty(parts);
}

/// Sequences without elements concatenate to a sequence without elements.
proof fn lemma_flatten_of_empty(parts: Seq<Seq<ChangeView>>)
    requires
        forall|i: int| 0 <= i < parts.len() ==> (#[trigger] parts[i]).len() == 0,
    ensures
        parts.flatten().len() == 0,
    decreases parts.len(),
{
    if parts.len() > 0 {
        assert(parts.first().len() == 0);
        lemma_flatten_of_empty(parts.drop_first());
    }
}

/// A component that was written becomes exactly one change: among the
/// changes that a matched group dissolves into, one and only one is for the
/// written component, and it is an `UpdateComponent` of its value.
pub proof fn lemma_one_update(group: ComponentGroup, changes: Seq<ChangeView>, written: ComponentTypeId)
    requires
        !group.is_new(),
        group.dirty().contains(written),
        group.emits(changes),
    ensures
        exists|i: int|
            {
                &&& 0 <= i < changes.len()
                &&& #[trigger] changes[i] == (ChangeView {
                    component: group.components()[written],
                    kind: ChangeType::UpdateComponent,
                })
                &&& forall|j: int|
                    0 <= j < changes.len() && j != i ==> (#[trigger] changes[j]).component.id.1
                        != written
            },
        forall|j: int| 0 <= j < changes.len() ==> (#[trigger] changes[j]).kind == ChangeType::UpdateComponent,
{
    let types = choose|types: Seq<ComponentTypeId>|
        {
            &&& types.no_duplicates()
            &&& types.to_set() == group.dirty()
            &&& #[trigger] types.len() == changes.len()
            &&& forall|i: int|
                0 <= i < changes.len() ==> changes[i] == (ChangeView {
                    component: group.components()[types[i]],
                    kind: group.change_kind(),
                })
        };
    assert(types.to_set().contains(written));
    assert(types.contains(written));
    let i = choose|i: int| 0 <= i < types.len() && types[i] == written;
    group.lemma_dirty_has_component();
    group.lemma_filed_by_type();
    assert forall|j: int| 0 <= j < changes.len() && j != i implies (
    #[trigger] changes[j]).component.id.1 != written by {
        assert(types.to_set().contains(types[j]));
        assert(group.dirty().contains(types[j]));
        assert(group.components().contains_key(types[j]));
        assert(changes[j].component.id.1 == types[j]);
    }
    assert(changes[i] == (ChangeView {
        component: group.components()[written],
        kind: ChangeType::UpdateComponent,
    }));
}

/// Adding a component that the world does not hold and removing it again
/// leaves the components as they were.
pub proof fn lemma_add_then_remove(
    components: Map<ComponentInstanceId, ComponentView>,
    component: ComponentView,
)
    requires
        !components.contains_key(component.id),
    ensures
        committed(
            committed(components, ChangeView { component, kind: ChangeType::AddComponent }),
            ChangeView { component, kind: ChangeType::RemoveComponent },
        ) == components,
        committed_all(
            components,
            seq![
                ChangeView { component, kind: ChangeType::AddComponent },
                ChangeView { component, kind: ChangeType::RemoveComponent },
            ],
        ) == components,
{
    let add = ChangeView { component, kind: ChangeType::AddComponent };
    let remove = ChangeView { component, kind: ChangeType::RemoveComponent };
    assert(committed(committed(components, add), remove) =~= components);
    let both = seq![add, remove];
    assert(both.drop_last() =~= seq![add]);
    assert(seq![add].drop_last() =~= Seq::<ChangeView>::empty());
    assert(committed_all(components, seq![add]) == committed(components, add)) by {
        reveal_with_fuel(committed_all, 2);
    }
    assert(committed_all(components, both) == committed(committed(components, add), remove)) by {
        reveal_with_fuel(committed_all, 3);
    }
}

/// A store to which a component that it does not hold is added and from
/// which it is removed again is as it was: its components and both of its
/// indices.
pub proof fn lemma_add_then_remove_store(before: Store, after: Store, component: ComponentView)
    requires
        before.wf(),
        after.wf(),
        !before@.contains_key(component.id),
        after@ == committed(
            committed(before@, ChangeView { component, kind: ChangeType::AddComponent }),
            ChangeView { component, kind: ChangeType::RemoveComponent },
        ),
    ensures
        after@ == before@,
        after.entities() == before.entities(),
        after.component_types() == before.component_types(),
{
    lemma_add_then_remove(before@, component);
    after.lemma_indices_follow(before);
}

/// Whether no hook emits a change for any of the changes.
pub open spec fn all_quiet(
    hooks: Seq<ChangeHook>,
    components: Map<ComponentInstanceId, ComponentView>,
    changes: Seq<ChangeView>,
) -> bool {
    forall|h: int, c: int|
        0 <= h < hooks.len() && 0 <= c < changes.len() ==> (#[trigger] hooks[h]).reaction(
            #[trigger] changes[c],
            components,
        ).len() == 0
}

/// A hook that emits nothing for any of the changes emits nothing for all of
/// them.
pub proof fn lemma_quiet_hook(
    hook: ChangeHook,
    components: Map<ComponentInstanceId, ComponentView>,
    changes: Seq<ChangeView>,
)
    requires
        forall|c: int|
            0 <= c < changes.len() ==> hook.reaction(#[trigger] changes[c], components).len() == 0,
    ensures
        reactions_of(hook, components, changes).len() == 0,
    decreases changes.len(),
{
    if changes.len() > 0 {
        let front = changes.drop_last();
        assert forall|c: int| 0 <= c < front.len() implies hook.reaction(
            #[trigger] front[c],
            components,
        ).len() == 0 by {
            assert(front[c] == changes[c]);
        }
        lemma_quiet_hook(hook, components, front);
        assert(changes.last() == changes[changes.len() - 1]);
    }
}

/// Hooks that emit nothing for any of the changes give an empty round.
pub proof fn lemma_quiet_round(
    hooks: Seq<ChangeHook>,
    components: Map<ComponentInstanceId, ComponentView>,
    changes: Seq<ChangeView>,
)
    requires
        all_quiet(hooks, components, changes),
    ensures
        fan_out(hooks, components, changes).len() == 0,
    decreases hooks.len(),
{
    if hooks.len() > 0 {
        let front = hooks.drop_last();
        assert forall|h: int, c: int| 0 <= h < front.len() && 0 <= c < changes.len() implies (
        #[trigger] front[h]).reaction(#[trigger] changes[c], components).len() == 0 by {
            assert(front[h] == hooks[h]);
        }
        lemma_quiet_round(front, components, changes);
        assert forall|c: int| 0 <= c < changes.len() implies hooks.last().reaction(
            #[trigger] changes[c],
            components,
        ).len() == 0 by {
            assert(hooks.last() == hooks[hooks.len() - 1]);
        }
        lemma_quiet_hook(hooks.last(), components, changes);
    }
}

/// When the hooks emit no change, the pipeline is done after one round: the
/// changes are committed as they are.
pub proof fn lemma_one_round(
    hooks: Seq<ChangeHook>,
    components: Map<ComponentInstanceId, ComponentView>,
    changes: Seq<ChangeView>,
    depth: nat,
)
    requires
        depth > 0,
        all_quiet(hooks, components, changes),
    ensures
        rounds(hooks, components, changes, depth) == 1,
        applied(hooks, components, changes, depth) == committed_all(components, changes),
        requested(hooks, components, changes, depth) == fan_out_requests(
            hooks,
            components,
            changes,
        ),
{
    lemma_quiet_round(hooks, components, changes);
    assert(requested(hooks, components, changes, depth) =~= fan_out_requests(
        hooks,
        components,
        changes,
    ));
}

/// Whether parents and children agree: every child that a stored `Children`
/// component lists has a `Parent` component that names the entity with that
/// `Children` component.
pub open spec fn family_consistent(components: Map<ComponentInstanceId, ComponentView>) -> bool {
    forall|parent: EntityId, k: int|
        #![trigger entities_of_bytes(components[instance_id_of::<Children>(parent)].data)[k]]
        components.contains_key(instance_id_of::<Children>(parent))
            && components[instance_id_of::<Children>(parent)].holds::<Children>() && 0 <= k
            < entities_of_bytes(components[instance_id_of::<Children>(parent)].data).len()
            ==> is_child_of(
            components,
            entities_of_bytes(components[instance_id_of::<Children>(parent)].data)[k],
            parent,
        )
}

/// Whether `child` has a `Parent` component that names `parent`.
pub open spec fn is_child_of(
    components: Map<ComponentInstanceId, ComponentView>,
    child: EntityId,
    parent: EntityId,
) -> bool {
    &&& components.contains_key(instance_id_of::<Parent>(child))
    &&& components[instance_id_of::<Parent>(child)].holds::<Parent>()
    &&& EntityId(u64_of_bytes(components[instance_id_of::<Parent>(child)].data)) == parent
}

/// Whether the hooks are those of parents and children: each is the children
/// rule on `Children`, the parent rule on `Parent`, or a hook that emits no
/// change at all.
pub open spec fn family_hooks(hooks: Seq<ChangeHook>) -> bool {
    forall|h: int|
        0 <= h < hooks.len() ==> {
            ||| (#[trigger] hooks[h]).component_type() == Some(type_id_of::<Children>())
                && forall|change: ChangeView, components: Map<ComponentInstanceId, ComponentView>|
                #![trigger hooks[h].rule_reaction(change, components)]
                hooks[h].rule_reaction(change, components) == children_reaction(
                    change,
                    components,
                )
            ||| hooks[h].component_type() == Some(type_id_of::<Parent>())
                && forall|change: ChangeView, components: Map<ComponentInstanceId, ComponentView>|
                #![trigger hooks[h].rule_reaction(change, components)]
                hooks[h].rule_reaction(change, components) == parent_reaction(change, components)
            ||| forall|change: ChangeView, components: Map<ComponentInstanceId, ComponentView>|
                #![trigger hooks[h].rule_reaction(change, components)]
                hooks[h].rule_reaction(change, components).len() == 0
        }
}

/// Whether a change is one that the hooks of parents and children have
/// nothing to add to: a new or updated link to a parent, or an update of a
/// list of children who all name the entity as their parent.
pub open spec fn settled(components: Map<ComponentInstanceId, ComponentView>, change: ChangeView) -> bool {
    ||| change.component.id.1 == type_id_of::<Parent>() && (change.kind == ChangeType::AddComponent
        || change.kind == ChangeType::UpdateComponent)
    ||| {
        &&& change.component.id.1 == type_id_of::<Children>()
        &&& change.kind == ChangeType::UpdateComponent
        &&& change.component.data.len() % 8 == 0
        &&& forall|k: int|
            0 <= k < entities_of_bytes(change.component.data).len() ==> is_child_of(
                components,
                #[trigger] entities_of_bytes(change.component.data)[k],
                change.component.id.0,
            )
    }
}

/// Children who all name the parent already are not adopted again.
proof fn lemma_no_adoption(
    components: Map<ComponentInstanceId, ComponentView>,
    parent: EntityId,
    children: Seq<EntityId>,
)
    requires
        forall|k: int| 0 <= k < children.len() ==> is_child_of(components, #[trigger] children[k], parent),
    ensures
        adoptions(parent, children, components).len() == 0,
    decreases children.len(),
{
    if children.len() > 0 {
        let front = children.drop_last();
        assert forall|k: int| 0 <= k < front.len() implies is_child_of(
            components,
            #[trigger] front[k],
            parent,
        ) by {
            assert(front[k] == children[k]);
        }
        lemma_no_adoption(components, parent, front);
        assert(children.last() == children[children.len() - 1]);
        assert(is_child_of(components, children.last(), parent));
    }
}

/// What the children rule emits for added or updated children are new or
/// updated links to a parent.
proof fn lemma_adoptions_settled(
    components: Map<ComponentInstanceId, ComponentView>,
    parent: EntityId,
    children: Seq<EntityId>,
)
    ensures
        forall|i: int|
            0 <= i < adoptions(parent, children, components).len() ==> settled(
                components,
                #[trigger] adoptions(parent, children, components)[i],
            ),
    decreases children.len(),
{
    if children.len() > 0 {
        lemma_adoptions_settled(components, parent, children.drop_last());
        let front = adoptions(parent, children.drop_last(), components);
        let last = adoption(parent, children.last(), components);
        assert forall|i: int| 0 <= i < (front + last).len() implies settled(
            components,
            #[trigger] (front + last)[i],
        ) by {
            if i < front.len() {
                assert((front + last)[i] == front[i]);
            } else {
                assert((front + last)[i] == last[i - front.len()]);
            }
        }
    }
}

/// The list without an entity holds only entities of the list.
proof fn lemma_without_members(entities: Seq<EntityId>, entity: EntityId)
    ensures
        forall|k: int|
            0 <= k < without(entities, entity).len() ==> entities.contains(
                #[trigger] without(entities, entity)[k],
            ),
    decreases entities.len(),
{
    if entities.len() > 0 {
        let front = entities.drop_last();
        lemma_without_members(front, entity);
        let rest = without(entities, entity);
        assert forall|k: int| 0 <= k < rest.len() implies entities.contains(#[trigger] rest[k]) by {
            if k < without(front, entity).len() {
                assert(rest[k] == without(front, entity)[k]);
                assert(front.contains(rest[k]));
                let at = choose|at: int| 0 <= at < front.len() && front[at] == rest[k];
                assert(entities[at] == rest[k]);
            } else {
                assert(rest[k] == entities.last());
                assert(entities[entities.len() - 1] == rest[k]);
            }
        }
    }
}

/// The hooks of parents and children have nothing to add to a settled
/// change.
proof fn lemma_settled_is_quiet(
    hooks: Seq<ChangeHook>,
    components: Map<ComponentInstanceId, ComponentView>,
    change: ChangeView,
    h: int,
)
    requires
        family_hooks(hooks),
        type_id_of::<Parent>() != type_id_of::<Children>(),
        settled(components, change),
        0 <= h < hooks.len(),
    ensures
        hooks[h].reaction(change, components).len() == 0,
{
    let hook = hooks[h];
    if hook.applies_to(change) {
        if hook.component_type() == Some(type_id_of::<Children>())
            && hook.rule_reaction(change, components) == children_reaction(change, components) {
            assert(change.component.id.1 == type_id_of::<Children>());
            if change.component.holds::<Children>() {
                lemma_no_adoption(
                    components,
                    change.component.id.0,
                    entities_of_bytes(change.component.data),
                );
            }
        } else if hook.component_type() == Some(type_id_of::<Parent>())
            && hook.rule_reaction(change, components) == parent_reaction(change, components) {
            assert(change.component.id.1 == type_id_of::<Parent>());
        } else {
            assert(hook.rule_reaction(change, components).len() == 0);
        }
    }
}

/// What a hook of parents and children emits for a change that does not
/// remove a list of children is settled, if parents and children agree.
proof fn lemma_reaction_settled(
    hooks: Seq<ChangeHook>,
    components: Map<ComponentInstanceId, ComponentView>,
    change: ChangeView,
    h: int,
)
    requires
        family_hooks(hooks),
        family_consistent(components),
        0 <= h < hooks.len(),
        !removes_children(change),
    ensures
        forall|i: int|
            0 <= i < hooks[h].reaction(change, components).len() ==> settled(
                components,
                #[trigger] hooks[h].reaction(change, components)[i],
            ),
{
    let hook = hooks[h];
    if hook.applies_to(change) {
        if hook.component_type() == Some(type_id_of::<Children>())
            && hook.rule_reaction(change, components) == children_reaction(change, components) {
            if change.component.holds::<Children>() {
                lemma_adoptions_settled(
                    components,
                    change.component.id.0,
                    entities_of_bytes(change.component.data),
                );
            }
        } else if hook.component_type() == Some(type_id_of::<Parent>())
            && hook.rule_reaction(change, components) == parent_reaction(change, components) {
            let emitted = parent_reaction(change, components);
            if emitted.len() > 0 {
                let child = change.component.id.0;
                let parent = EntityId(u64_of_bytes(change.component.data));
                let stored = components[instance_id_of::<Children>(parent)];
                let listed = entities_of_bytes(stored.data);
                let rest = without(listed, child);
                lemma_entity_bytes(rest);
                lemma_without_members(listed, child);
                assert(emitted[0].component.data == entity_bytes(rest));
                assert(entities_of_bytes(emitted[0].component.data) == rest);
                assert forall|k: int| 0 <= k < rest.len() implies is_child_of(
                    components,
                    #[trigger] rest[k],
                    parent,
                ) by {
                    assert(listed.contains(rest[k]));
                    let at = choose|at: int| 0 <= at < listed.len() && listed[at] == rest[k];
                    assert(is_child_of(components, listed[at], parent));
                }
                assert(settled(components, emitted[0]));
            }
        } else {
            assert(hook.rule_reaction(change, components).len() == 0);
        }
    }
}

/// Whether a change removes or unloads a `Children` component.
pub open spec fn removes_children(change: ChangeView) -> bool {
    change.component.id.1 == type_id_of::<Children>() && (change.kind
        == ChangeType::RemoveComponent || change.kind == ChangeType::UnloadComponent)
}

/// What one hook emits for a list of changes is settled.
proof fn lemma_reactions_settled(
    hooks: Seq<ChangeHook>,
    components: Map<ComponentInstanceId, ComponentView>,
    changes: Seq<ChangeView>,
    h: int,
)
    requires
        family_hooks(hooks),
        family_consistent(components),
        0 <= h < hooks.len(),
        forall|c: int| 0 <= c < changes.len() ==> !removes_children(#[trigger] changes[c]),
    ensures
        forall|i: int|
            0 <= i < reactions_of(hooks[h], components, changes).len() ==> settled(
                components,
                #[trigger] reactions_of(hooks[h], components, changes)[i],
            ),
    decreases changes.len(),
{
    if changes.len() > 0 {
        let front_changes = changes.drop_last();
        assert forall|c: int| 0 <= c < front_changes.len() implies !removes_children(
            #[trigger] front_changes[c],
        ) by {
            assert(front_changes[c] == changes[c]);
        }
        lemma_reactions_settled(hooks, components, front_changes, h);
        assert(changes.last() == changes[changes.len() - 1]);
        lemma_reaction_settled(hooks, components, changes.last(), h);
        let front = reactions_of(hooks[h], components, front_changes);
        let last = hooks[h].reaction(changes.last(), components);
        assert forall|i: int| 0 <= i < (front + last).len() implies settled(
            components,
            #[trigger] (front + last)[i],
        ) by {
            if i < front.len() {
                assert((front + last)[i] == front[i]);
            } else {
                assert((front + last)[i] == last[i - front.len()]);
            }
        }
    }
}

/// What the first `count` hooks emit for a list of changes is settled.
proof fn lemma_round_settled(
    hooks: Seq<ChangeHook>,
    components: Map<ComponentInstanceId, ComponentView>,
    changes: Seq<ChangeView>,
    count: int,
)
    requires
        family_hooks(hooks),
        family_consistent(components),
        0 <= count <= hooks.len(),
        forall|c: int| 0 <= c < changes.len() ==> !removes_children(#[trigger] changes[c]),
    ensures
        forall|i: int|
            0 <= i < fan_out(hooks.subrange(0, count), components, changes).len() ==> settled(
                components,
                #[trigger] fan_out(hooks.subrange(0, count), components, changes)[i],
            ),
    decreases count,
{
    if count > 0 {
        let prefix = hooks.subrange(0, count);
        assert(prefix.drop_last() =~= hooks.subrange(0, count - 1));
        assert(prefix.last() == hooks[count - 1]);
        lemma_round_settled(hooks, components, changes, count - 1);
        lemma_reactions_settled(hooks, components, changes, count - 1);
        let front = fan_out(hooks.subrange(0, count - 1), components, changes);
        let last = reactions_of(hooks[count - 1], components, changes);
        assert forall|i: int| 0 <= i < (front + last).len() implies settled(
            components,
            #[trigger] (front + last)[i],
        ) by {
            if i < front.len() {
                assert((front + last)[i] == front[i]);
            } else {
                assert((front + last)[i] == last[i - front.len()]);
            }
        }
    }
}

/// The hooks of parents and children come to rest after at most two rounds.
///
/// Where parents and children agree in the world, and no change of the input
/// removes a list of children, what the hooks emit for the input is settled
/// already: the hooks have nothing to add to it.
pub proof fn lemma_family_two_rounds(
    hooks: Seq<ChangeHook>,
    components: Map<ComponentInstanceId, ComponentView>,
    changes: Seq<ChangeView>,
    depth: nat,
)
    requires
        family_hooks(hooks),
        family_consistent(components),
        forall|c: int| 0 <= c < changes.len() ==> !removes_children(#[trigger] changes[c]),
    ensures
        rounds(hooks, components, changes, depth) <= 2,
        fan_out(hooks, components, fan_out(hooks, components, changes)).len() == 0,
{
    crate::names::lemma_built_in_types_differ();
    let emitted = fan_out(hooks, components, changes);
    assert(hooks.subrange(0, hooks.len() as int) =~= hooks);
    lemma_round_settled(hooks, components, changes, hooks.len() as int);
    assert forall|h: int, c: int| 0 <= h < hooks.len() && 0 <= c < emitted.len() implies (
    #[trigger] hooks[h]).reaction(#[trigger] emitted[c], components).len() == 0 by {
        lemma_settled_is_quiet(hooks, components, emitted[c], h);
    }
    lemma_quiet_round(hooks, components, emitted);
    if depth >= 2 && emitted.len() > 0 {
        lemma_one_round(hooks, components, emitted, (depth - 1) as nat);
    }
    crate::pipeline::lemma_rounds_bounded(hooks, components, changes, depth);
}

/// The hooks of the default world are hooks of parents and children, so
/// that they come to rest after two rounds as well.
pub proof fn lemma_default_hooks_are_family(hooks: Seq<ChangeHook>)
    requires
        crate::default_world::default_hooks(hooks),
    ensures
        family_hooks(hooks),
{
    assert forall|h: int| 0 <= h < hooks.len() implies {
        ||| (#[trigger] hooks[h]).component_type() == Some(type_id_of::<Children>())
            && forall|change: ChangeView, components: Map<ComponentInstanceId, ComponentView>|
            #![trigger hooks[h].rule_reaction(change, components)]
            hooks[h].rule_reaction(change, components) == children_reaction(change, components)
        ||| hooks[h].component_type() == Some(type_id_of::<Parent>())
            && forall|change: ChangeView, components: Map<ComponentInstanceId, ComponentView>|
            #![trigger hooks[h].rule_reaction(change, components)]
            hooks[h].rule_reaction(change, components) == parent_reaction(change, components)
        ||| forall|change: ChangeView, components: Map<ComponentInstanceId, ComponentView>|
            #![trigger hooks[h].rule_reaction(change, components)]
            hooks[h].rule_reaction(change, components).len() == 0
    } by {
        if h == 0 {
            assert forall|change: ChangeView, components: Map<ComponentInstanceId, ComponentView>|
                #![trigger hooks[h].rule_reaction(change, components)]
                hooks[h].rule_reaction(change, components).len() == 0 by {
                assert(hooks[0].rule_reaction(change, components) == Seq::<ChangeView>::empty());
            }
        }
    }
}

/// Adding a component in the place of one that is stored is the same as
/// updating it.
pub proof fn lemma_add_existing_is_update(
    components: Map<ComponentInstanceId, ComponentView>,
    component: ComponentView,
)
    requires
        components.contains_key(component.id),
    ensures
        committed(components, ChangeView { component, kind: ChangeType::AddComponent })
            == committed(components, ChangeView { component, kind: ChangeType::UpdateComponent }),
{
}

/// Removing or unloading a component that is not stored changes nothing.
pub proof fn lemma_remove_missing_is_nothing(
    components: Map<ComponentInstanceId, ComponentView>,
    component: ComponentView,
)
    requires
        !components.contains_key(component.id),
    ensures
        committed(components, ChangeView { component, kind: ChangeType::RemoveComponent })
            == components,
        committed(components, ChangeView { component, kind: ChangeType::UnloadComponent })
            == components,
{
    assert(components.remove(component.id) =~= components);
}

/// The spatial index follows the positions: the write that the position
/// rule queues when a position is added or updated puts the entity at the
/// point of the position, and the write that it queues when a position is
/// removed or unloaded takes the entity off the map.
pub proof fn lemma_index_follows_position(
    positions: Map<EntityId, (i32, i32)>,
    components: Map<ComponentInstanceId, ComponentView>,
    position: Position,
    entity: EntityId,
    kind: ChangeType,
)
    ensures
        position_requests(
            ChangeView {
                component: ComponentView {
                    id: instance_id_of::<Position>(entity),
                    data: position.encoding(),
                },
                kind,
            },
            components,
        ).len() == 1,
        position_step(
            positions,
            position_requests(
                ChangeView {
                    component: ComponentView {
                        id: instance_id_of::<Position>(entity),
                        data: position.encoding(),
                    },
                    kind,
                },
                components,
            )[0],
        ) == if kind == ChangeType::AddComponent || kind == ChangeType::UpdateComponent {
            positions.insert(entity, (position.x, position.y))
        } else {
            positions.remove(entity)
        },
{
    let component = ComponentView {
        id: instance_id_of::<Position>(entity),
        data: position.encoding(),
    };
    crate::component::lemma_encoding_holds(position, entity);
    crate::codec::lemma_number_round_trip();
    let data = component.data;
    assert(data.subrange(0, 4) =~= crate::codec::i32_bytes(position.x));
    assert(data.subrange(4, 8) =~= crate::codec::i32_bytes(position.y));
}

/// The number of the identifier an allocator gives at its `turn`-th
/// allocation, counted from zero, as long as the identifiers are not used
/// up.
pub open spec fn given(allocator: EntityAllocator, turn: nat) -> int {
    allocator.next + turn * allocator.stride
}

/// An allocator gives its identifiers one stride apart: after an
/// allocation it stands where its next turn is.
pub proof fn lemma_allocator_moves_on(allocator: EntityAllocator, turn: nat)
    requires
        given(allocator, turn + 1) <= u64::MAX,
    ensures
        given(allocator, turn) <= u64::MAX,
        (EntityAllocator { next: given(allocator, turn) as u64, stride: allocator.stride }).following()
            == given(allocator, turn + 1),
{
    assert((turn + 1) * allocator.stride == turn * allocator.stride + allocator.stride)
        by (nonlinear_arith);
}

/// Two systems of one stage never spawn entities under the same identifier,
/// as long as the identifiers are not used up: whatever the turns at which
/// they allocate, the identifiers differ.
pub proof fn lemma_stage_identifiers_differ(
    from: u64,
    count: int,
    one: int,
    other: int,
    turn: nat,
    other_turn: nat,
)
    requires
        0 <= one < count,
        0 <= other < count,
        one != other,
        count <= u64::MAX,
        from + count <= u64::MAX,
    ensures
        given(stage_allocator(from, one, count), turn) != given(
            stage_allocator(from, other, count),
            other_turn,
        ),
{
    let left = stage_allocator(from, one, count);
    let right = stage_allocator(from, other, count);
    assert(left.stride == count && right.stride == count);
    assert(left.next == from + one && right.next == from + other);
    assert(one + turn * count != other + other_turn * count) by (nonlinear_arith)
        requires
            0 <= one < count,
            0 <= other < count,
            one != other,
    {
        if turn == other_turn {
        } else if turn < other_turn {
            assert((other_turn - turn) * count >= count);
            assert(other_turn * count == turn * count + (other_turn - turn) * count);
        } else {
            assert((turn - other_turn) * count >= count);
            assert(turn * count == other_turn * count + (turn - other_turn) * count);
        }
    }
}

/// An identifier that a system of a stage gives is fresh: the world has not
/// given it, and no entity of the world has it, as long as it is not the
/// largest number.
pub proof fn lemma_stage_identifiers_fresh(world: World, index: int, count: int, turn: nat)
    requires
        world.wf(),
        0 <= index < count,
        given(stage_allocator(world.free_from(), index, count), turn) < u64::MAX,
    ensures
        given(stage_allocator(world.free_from(), index, count), turn) >= world.allocator().next,
        !owners(world@).contains(
            EntityId(given(stage_allocator(world.free_from(), index, count), turn) as u64),
        ),
{
    let allocator = stage_allocator(world.free_from(), index, count);
    assert(turn * allocator.stride >= 0) by (nonlinear_arith)
        requires
            turn >= 0,
            allocator.stride >= 0,
    ;
    world.lemma_store();
    world.store().lemma_below_ceiling();
}

/// An identifier that the world gives after results were applied differs
/// from every identifier that the results gave: those lie before the place
/// where a result came to stand, and the counter of the world stands at or
/// behind it.
pub proof fn lemma_counter_behind_results(
    counter: u64,
    results: Seq<QueryResult>,
    at: int,
    id: EntityId,
)
    requires
        0 <= at < results.len(),
        id.0 < results[at].allocator().next,
    ensures
        id.0 < counter_after(counter, results),
{
    lemma_counter_after(counter, results);
}

} // verus!
