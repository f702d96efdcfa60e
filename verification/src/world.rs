//! The world: the store, the resources and the hooks, and the operations that
//! take the world from one state to the next.

use vstd::prelude::*;
use rayon::iter::{IndexedParallelIterator, IntoParallelRefIterator, ParallelIterator};
use crate::component::{
    component_views, instance_id_of, ComponentInstanceId, ComponentType, ComponentView,
    UntypedComponent,
};
use crate::entity_builder::{EntityBuilder, SpawnLocation};
use crate::entity_id::{EntityAllocator, EntityId};
use crate::hook::{ChangeHook, HeldHook, HeldLoader, Hook, Loader, Rule, Unloader};
use crate::pipeline::{applied, apply, requested, rounds, MAX_HOOK_DEPTH};
use crate::position_map::{
    position_after, position_answers_in, position_map_key, positions_after, PositionMap,
};
use crate::query::{change_views, Change, ChangeType, ChangeView, Query, QueryResult};
use crate::resource::{
    HeldResource, RequestView, Resource, ResourceKey, ResourceRequest, ResourceState,
};
use crate::resource_writer::{request_views, ResourceWriter};
use crate::stage::{Stage, StagedSystem};
use crate::store::{answers, is_row, owners, Store};
use crate::tables::{
    resource_table_get, resource_table_get_mut, resource_table_insert, resource_table_new,
    ResourceTable,
};

verus! {

/// What can go wrong in an operation of the world.
#[derive(Clone, Copy, Debug, PartialEq, Eq, Structural)]
pub enum WorldError {
    /// A resource was read or written that is not registered.
    ResourceNotFound,
    /// An entity was looked up that is not in the world.
    EntityNotFound,
}

/// One change of the given kind for each component, in their order.
pub open spec fn changes_of(components: Seq<ComponentView>, kind: ChangeType) -> Seq<ChangeView> {
    Seq::new(components.len(), |i: int| ChangeView { component: components[i], kind })
}

/// The number of requests whose resource is not among `keys`.
pub open spec fn undeliverable(keys: Set<ResourceKey>, requests: Seq<RequestView>) -> nat
    decreases requests.len(),
{
    if requests.len() == 0 {
        0
    } else {
        undeliverable(keys, requests.drop_last()) + if keys.contains(requests.last().key) {
            0nat
        } else {
            1nat
        }
    }
}

/// Where the `index`-th of the `count` systems of a stage takes the
/// identifiers of the entities it spawns from, in a world whose numbers are
/// free from `from` on: it starts `index` behind `from` and moves on by
/// `count`, so that the systems of the stage do not meet.
pub open spec fn stage_allocator(from: u64, index: int, count: int) -> EntityAllocator {
    EntityAllocator {
        next: if from + index <= u64::MAX {
            (from + index) as u64
        } else {
            u64::MAX
        },
        stride: if count == 0 {
            1
        } else {
            count as u64
        },
    }
}

/// Whether `result` is what the `index`-th of the `count` systems of a stage
/// leaves behind in `world`: what the system made of the answer to its
/// query.
pub open spec fn ran(
    world: World,
    system: StagedSystem,
    index: int,
    count: int,
    result: QueryResult,
) -> bool {
    exists|answer: QueryResult|
        #![trigger system.executed(answer, world, result)]
        {
            &&& answers(world@, system.wanted(), answer.groups())
            &&& answer.writes() == Seq::<RequestView>::empty()
            &&& answer.allocator() == stage_allocator(world.free_from(), index, count)
            &&& system.executed(answer, world, result)
        }
}

/// Where the counter of the world stands after results were applied: at
/// `counter`, or behind the last identifier that one of the results gave,
/// whichever is further.
pub open spec fn counter_after(counter: u64, results: Seq<QueryResult>) -> u64
    decreases results.len(),
{
    if results.len() == 0 {
        counter
    } else {
        let before = counter_after(counter, results.drop_last());
        if results.last().allocator().next > before {
            results.last().allocator().next
        } else {
            before
        }
    }
}

/// The counter after results were applied stands at or behind the counter
/// before, and at or behind the place of every result.
pub proof fn lemma_counter_after(counter: u64, results: Seq<QueryResult>)
    ensures
        counter_after(counter, results) >= counter,
        forall|i: int|
            0 <= i < results.len() ==> counter_after(counter, results) >= (
            #[trigger] results[i]).allocator().next,
    decreases results.len(),
{
    if results.len() > 0 {
        lemma_counter_after(counter, results.drop_last());
        assert forall|i: int| 0 <= i < results.len() implies counter_after(counter, results) >= (
        #[trigger] results[i]).allocator().next by {
            if i < results.len() - 1 {
                assert(results.drop_last()[i] == results[i]);
            }
        }
    }
}

/// Whether `changes` is what the results of a stage dissolve into: the changes
/// of each result, result after result.
pub open spec fn stage_output(results: Seq<QueryResult>, changes: Seq<ChangeView>) -> bool {
    exists|parts: Seq<Seq<ChangeView>>|
        {
            &&& #[trigger] parts.len() == results.len()
            &&& forall|i: int|
                0 <= i < parts.len() ==> results[i].dissolves_to(#[trigger] parts[i])
            &&& changes == parts.flatten()
        }
}

/// The first number from `from` on that is not the number of one of the
/// entities `taken`, or the largest number if all from `from` on are taken.
pub open spec fn first_free(taken: Set<EntityId>, from: u64) -> u64
    decreases u64::MAX - from,
{
    if from >= u64::MAX || !taken.contains(EntityId(from)) {
        from
    } else {
        first_free(taken, (from + 1) as u64)
    }
}

/// The tally of writes that were not delivered, after `requests` were
/// written to resources registered under `keys`. The tally stops at the
/// largest number it can hold.
pub open spec fn tallied(count: usize, keys: Set<ResourceKey>, requests: Seq<RequestView>) -> usize {
    if count + undeliverable(keys, requests) <= usize::MAX {
        (count + undeliverable(keys, requests)) as usize
    } else {
        usize::MAX
    }
}

/// The writes of two lists that are not delivered are those of the one and
/// those of the other.
pub proof fn lemma_undeliverable_concat(
    keys: Set<ResourceKey>,
    first: Seq<RequestView>,
    second: Seq<RequestView>,
)
    ensures
        undeliverable(keys, first + second) == undeliverable(keys, first) + undeliverable(
            keys,
            second,
        ),
    decreases second.len(),
{
    if second.len() == 0 {
        assert(first + second =~= first);
    } else {
        lemma_undeliverable_concat(keys, first, second.drop_last());
        assert((first + second).drop_last() =~= first + second.drop_last());
        assert((first + second).last() == second.last());
    }
}

/// The resource writes that the systems of a stage queued, result after
/// result.
pub open spec fn stage_writes(results: Seq<QueryResult>) -> Seq<RequestView>
    decreases results.len(),
{
    if results.len() == 0 {
        Seq::empty()
    } else {
        stage_writes(results.drop_last()) + results.last().writes()
    }
}

/// The world: the store of components, the registry of resources, the
/// hooks, and the source of entity identifiers.
pub struct World {
    store: Store,
    resources: ResourceTable,
    hooks: Vec<ChangeHook>,
    loader: Option<Box<dyn Loader>>,
    unloader: Option<Box<dyn Unloader>>,
    allocator: EntityAllocator,
    undelivered: usize,
}

impl View for World {
    type V = Map<ComponentInstanceId, ComponentView>;

    /// The components of the world, by instance.
    closed spec fn view(&self) -> Map<ComponentInstanceId, ComponentView> {
        self.store@
    }
}

impl World {
    /// The invariant of the world: that of its store, and that the world
    /// counts its entities one by one.
    pub closed spec fn wf(&self) -> bool {
        self.store.wf() && self.allocator.stride == 1
    }

    /// The store of the world.
    pub closed spec fn store(&self) -> Store {
        self.store
    }

    /// The registered hooks, in the order of registration.
    pub closed spec fn hooks(&self) -> Seq<ChangeHook> {
        self.hooks@
    }

    /// The number from which on every number is free: no identifier from
    /// there on was given by the world, and none is the number of an entity,
    /// unless it is the largest number.
    pub open spec fn free_from(&self) -> u64 {
        if self.allocator().next >= self.store().ceiling() {
            self.allocator().next
        } else {
            self.store().ceiling()
        }
    }

    /// The keys of the registered resources.
    pub closed spec fn resource_keys(&self) -> Set<ResourceKey> {
        Set::new(|key: ResourceKey| self.resources@.contains_key(key.0))
    }

    /// What the resource registered under `key` holds.
    pub closed spec fn resource_state(&self, key: ResourceKey) -> ResourceState {
        self.resources@[key.0].state()
    }

    /// Whether the invariant of the resource registered under `key` holds.
    pub closed spec fn resource_sound(&self, key: ResourceKey) -> bool {
        self.resources@[key.0].sound()
    }

    /// The key that the resource registered under `key` names as its own.
    pub closed spec fn resource_named(&self, key: ResourceKey) -> ResourceKey {
        self.resources@[key.0].registered_key()
    }

    /// What a resource of the kind registered under `key` holds after
    /// `request` is written to one that holds `state`.
    pub closed spec fn resource_after(
        &self,
        key: ResourceKey,
        state: ResourceState,
        request: RequestView,
    ) -> ResourceState {
        self.resources@[key.0].after(state, request)
    }

    /// Whether a resource of the kind registered under `key` that holds
    /// `state` may give `answer` to `request`.
    pub closed spec fn resource_answers(
        &self,
        key: ResourceKey,
        state: ResourceState,
        request: RequestView,
        answer: Seq<i64>,
    ) -> bool {
        self.resources@[key.0].answers(state, request, answer)
    }

    /// What the resource under `key` would hold after the requests that
    /// name `key` among `requests` were written, oldest first, to one of its
    /// kind that holds `state`.
    pub open spec fn written(
        &self,
        key: ResourceKey,
        state: ResourceState,
        requests: Seq<RequestView>,
    ) -> ResourceState
        decreases requests.len(),
    {
        if requests.len() == 0 {
            state
        } else if requests.last().key == key {
            self.resource_after(key, 
                self.written(key, state, requests.drop_last()),
                requests.last(),
            )
        } else {
            self.written(key, state, requests.drop_last())
        }
    }

    /// Whether the resource under `key` in `after` behaves as the one in
    /// this world does: it is registered under the same key, writes and
    /// answers in the same way, and is sound if the one here is.
    pub open spec fn alike(&self, key: ResourceKey, after: World) -> bool {
        &&& self.resource_sound(key) ==> after.resource_sound(key)
        &&& after.resource_named(key) == self.resource_named(key)
        &&& forall|state: ResourceState, request: RequestView|
            #![trigger after.resource_after(key, state, request)]
            after.resource_after(key, state, request) == self.resource_after(key, state, request)
        &&& forall|state: ResourceState, request: RequestView, answer: Seq<i64>|
            #![trigger after.resource_answers(key, state, request, answer)]
            after.resource_answers(key, state, request, answer) == self.resource_answers(key, 
                state,
                request,
                answer,
            )
    }

    /// Whether the resources of `after` are those of this world after
    /// `requests` were written, oldest first: the same keys are registered,
    /// and every resource behaves as before and holds what the writes that
    /// name it made. Writes that name no registered resource change
    /// nothing.
    pub open spec fn resources_written(&self, requests: Seq<RequestView>, after: World) -> bool {
        &&& after.resource_keys() == self.resource_keys()
        &&& forall|key: ResourceKey| #[trigger]
            self.resource_keys().contains(key) ==> self.alike(key, after) && after.resource_state(
                key,
            ) == self.written(key, self.resource_state(key), requests)
    }

    /// Whether the resource under `key` in `after` is as it is in this
    /// world: it behaves alike and holds the same.
    pub open spec fn kept(&self, key: ResourceKey, after: World) -> bool {
        &&& self.alike(key, after)
        &&& after.resource_state(key) == self.resource_state(key)
        &&& after.resource_sound(key) == self.resource_sound(key)
    }

    /// Whether `resource` is registered in this world under its key: the
    /// world holds what it holds, is sound as it is, and behaves as it does.
    pub open spec fn holds<R: Resource>(&self, resource: R) -> bool {
        let key = resource.registered_key();
        &&& self.resource_keys().contains(key)
        &&& self.resource_named(key) == key
        &&& self.resource_state(key) == resource.state()
        &&& self.resource_sound(key) == resource.sound()
        &&& forall|state: ResourceState, request: RequestView|
            #![trigger self.resource_after(key, state, request)]
            self.resource_after(key, state, request) == resource.after(state, request)
        &&& forall|state: ResourceState, request: RequestView, answer: Seq<i64>|
            #![trigger self.resource_answers(key, state, request, answer)]
            self.resource_answers(key, state, request, answer) == resource.answers(
                state,
                request,
                answer,
            )
    }

    /// Whether the spatial index is registered in this world, holds
    /// `positions`, and is sound if `sound` says so.
    pub open spec fn holds_position_map(
        &self,
        positions: Map<EntityId, (i32, i32)>,
        sound: bool,
    ) -> bool {
        let key = position_map_key();
        &&& self.resource_keys().contains(key)
        &&& self.resource_state(key) == ResourceState::Positions(positions)
        &&& sound ==> self.resource_sound(key)
        &&& forall|state: ResourceState, request: RequestView|
            #![trigger self.resource_after(key, state, request)]
            self.resource_after(key, state, request) == position_after(state, request)
        &&& forall|state: ResourceState, request: RequestView, answer: Seq<i64>|
            #![trigger self.resource_answers(key, state, request, answer)]
            self.resource_answers(key, state, request, answer) == position_answers_in(
                state,
                request,
                answer,
            )
    }

    /// The spatial index follows the writes: after `requests` are written,
    /// it holds the positions that the writes that name it make.
    pub proof fn lemma_position_map_written(
        &self,
        positions: Map<EntityId, (i32, i32)>,
        sound: bool,
        requests: Seq<RequestView>,
        after: World,
    )
        requires
            self.holds_position_map(positions, sound),
            self.resources_written(requests, after),
        ensures
            after.holds_position_map(positions_after(positions, requests), sound),
    {
        let key = position_map_key();
        assert(self.alike(key, after));
        self.lemma_written_positions(positions, requests);
        assert forall|state: ResourceState, request: RequestView|
            #![trigger after.resource_after(key, state, request)]
            after.resource_after(key, state, request) == position_after(state, request) by {
            assert(after.resource_after(key, state, request) == self.resource_after(
                key,
                state,
                request,
            ));
        }
        assert forall|state: ResourceState, request: RequestView, answer: Seq<i64>|
            #![trigger after.resource_answers(key, state, request, answer)]
            after.resource_answers(key, state, request, answer) == position_answers_in(
                state,
                request,
                answer,
            ) by {
            assert(after.resource_answers(key, state, request, answer) == self.resource_answers(
                key,
                state,
                request,
                answer,
            ));
        }
    }

    /// What the writes make of the spatial index is what they make of its
    /// positions.
    proof fn lemma_written_positions(
        &self,
        positions: Map<EntityId, (i32, i32)>,
        requests: Seq<RequestView>,
    )
        requires
            forall|state: ResourceState, request: RequestView|
                #![trigger self.resource_after(position_map_key(), state, request)]
                self.resource_after(position_map_key(), state, request) == position_after(
                    state,
                    request,
                ),
        ensures
            self.written(position_map_key(), ResourceState::Positions(positions), requests)
                == ResourceState::Positions(positions_after(positions, requests)),
        decreases requests.len(),
    {
        if requests.len() > 0 {
            self.lemma_written_positions(positions, requests.drop_last());
        }
    }

    /// The number of queued writes that named no registered resource and
    /// were therefore not delivered, over the life of the world.
    pub closed spec fn undelivered(&self) -> usize {
        self.undelivered
    }

    /// Whether `after` is this world after the queued writes `requests` were
    /// applied, oldest first: the resources are written, and the writes that
    /// name no registered resource are added to the tally of undelivered
    /// writes.
    pub open spec fn commands_executed(&self, requests: Seq<RequestView>, after: World) -> bool {
        &&& self.resources_written(requests, after)
        &&& after.undelivered() == tallied(self.undelivered(), self.resource_keys(), requests)
    }

    /// Applying two lists of writes one after the other is applying the list
    /// of both.
    pub proof fn lemma_commands_executed_concat(
        &self,
        first: Seq<RequestView>,
        between: World,
        second: Seq<RequestView>,
        after: World,
    )
        requires
            self.commands_executed(first, between),
            between.commands_executed(second, after),
        ensures
            self.commands_executed(first + second, after),
    {
        self.lemma_resources_written_concat(first, between, second, after);
        lemma_undeliverable_concat(self.resource_keys(), first, second);
    }

    /// What is written does not depend on anything of the two worlds but
    /// their resources.
    proof fn lemma_resources_carry(
        &self,
        source: World,
        requests: Seq<RequestView>,
        target: World,
        after: World,
    )
        requires
            source.resources == self.resources,
            after.resources == target.resources,
            source.resources_written(requests, target),
        ensures
            self.resources_written(requests, after),
    {
        assert forall|key: ResourceKey| #[trigger]
            self.resource_keys().contains(key) implies self.alike(key, after)
            && after.resource_state(key) == self.written(
            key,
            self.resource_state(key),
            requests,
        ) by {
            assert(source.resource_keys().contains(key));
            assert(source.alike(key, target));
            assert(source.alike(key, *self));
            source.lemma_written_alike(*self, key, source.resource_state(key), requests);
            assert(self.resource_state(key) == source.resource_state(key));
            assert(after.resource_state(key) == target.resource_state(key));
            assert forall|state: ResourceState, request: RequestView|
                #![trigger after.resource_after(key, state, request)]
                after.resource_after(key, state, request) == self.resource_after(
                    key,
                    state,
                    request,
                ) by {
                assert(target.resource_after(key, state, request) == source.resource_after(
                    key,
                    state,
                    request,
                ));
            }
            assert forall|state: ResourceState, request: RequestView, answer: Seq<i64>|
                #![trigger after.resource_answers(key, state, request, answer)]
                after.resource_answers(key, state, request, answer) == self.resource_answers(
                    key,
                    state,
                    request,
                    answer,
                ) by {
                assert(target.resource_answers(key, state, request, answer)
                    == source.resource_answers(key, state, request, answer));
            }
        }
    }

    /// What is applied does not depend on anything of the two worlds but
    /// their resources and their tallies.
    proof fn lemma_commands_carry(
        &self,
        source: World,
        requests: Seq<RequestView>,
        target: World,
        after: World,
    )
        requires
            source.resources == self.resources,
            source.undelivered == self.undelivered,
            after.resources == target.resources,
            after.undelivered == target.undelivered,
            source.commands_executed(requests, target),
        ensures
            self.commands_executed(requests, after),
    {
        self.lemma_resources_carry(source, requests, target, after);
    }

    /// Writing nothing leaves the resources as they are.
    pub proof fn lemma_nothing_written(&self)
        ensures
            self.resources_written(Seq::empty(), *self),
    {
    }

    /// Writing to resources that behave alike gives the same.
    pub proof fn lemma_written_alike(
        &self,
        other: World,
        key: ResourceKey,
        state: ResourceState,
        requests: Seq<RequestView>,
    )
        requires
            self.alike(key, other),
        ensures
            other.written(key, state, requests) == self.written(key, state, requests),
        decreases requests.len(),
    {
        if requests.len() > 0 {
            self.lemma_written_alike(other, key, state, requests.drop_last());
        }
    }

    /// Writing two lists of requests one after the other is writing the list
    /// of both.
    pub proof fn lemma_written_concat(
        &self,
        key: ResourceKey,
        state: ResourceState,
        first: Seq<RequestView>,
        second: Seq<RequestView>,
    )
        ensures
            self.written(key, state, first + second) == self.written(
                key,
                self.written(key, state, first),
                second,
            ),
        decreases second.len(),
    {
        if second.len() == 0 {
            assert(first + second =~= first);
        } else {
            self.lemma_written_concat(key, state, first, second.drop_last());
            assert((first + second).drop_last() =~= first + second.drop_last());
            assert((first + second).last() == second.last());
        }
    }

    /// Writing two lists of requests one after the other is writing the list
    /// of both.
    pub proof fn lemma_resources_written_concat(
        &self,
        first: Seq<RequestView>,
        between: World,
        second: Seq<RequestView>,
        after: World,
    )
        requires
            self.resources_written(first, between),
            between.resources_written(second, after),
        ensures
            self.resources_written(first + second, after),
    {
        assert forall|key: ResourceKey| #[trigger]
            self.resource_keys().contains(key) implies self.alike(key, after)
                && after.resource_state(key) == self.written(
                key,
                self.resource_state(key),
                first + second,
            ) by {
            assert(between.resource_keys().contains(key));
            assert(self.alike(key, between));
            assert(between.alike(key, after));
            self.lemma_written_alike(between, key, between.resource_state(key), second);
            self.lemma_written_concat(key, self.resource_state(key), first, second);
            assert(self.alike(key, after)) by {
                assert forall|state: ResourceState, request: RequestView|
                    #![trigger after.resource_after(key, state, request)]
                    after.resource_after(key, state, request) == self.resource_after(key, 
                        state,
                        request,
                    ) by {
                    assert(after.resource_after(key, state, request) == between.resource_after(
                        key,
                        state,
                        request,
                    ));
                }
                assert forall|state: ResourceState, request: RequestView, answer: Seq<i64>|
                    #![trigger after.resource_answers(key, state, request, answer)]
                    after.resource_answers(key, state, request, answer) == self.resource_answers(
                    key,
                    state,
                    request,
                    answer,
                ) by {
                    assert(after.resource_answers(key, state, request, answer)
                        == between.resource_answers(key, state, request, answer));
                }
            }
        }
    }

    /// Where the identifiers of new entities come from.
    pub closed spec fn allocator(&self) -> EntityAllocator {
        self.allocator
    }

    /// Whether a loader is registered.
    pub closed spec fn has_loader(&self) -> bool {
        self.loader is Some
    }

    /// Whether the registered loader may return `loaded` for the entities
    /// `ids`, given the components of the store.
    pub closed spec fn loader_loads(
        &self,
        ids: Seq<EntityId>,
        components: Map<ComponentInstanceId, ComponentView>,
        loaded: Seq<ComponentView>,
    ) -> bool {
        self.loader->Some_0.loads(ids, components, loaded)
    }

    /// A world with the same loader and unloader keeps them, and a world
    /// that keeps those of a world that keeps those of this one, keeps
    /// those of this one.
    proof fn lemma_loader_carries(&self, between: World, after: World)
        requires
            self.keeps_loader(between),
            between.loader == after.loader,
            between.unloader == after.unloader,
        ensures
            self.keeps_loader(after),
    {
        assert forall|
            ids: Seq<EntityId>,
            components: Map<ComponentInstanceId, ComponentView>,
            loaded: Seq<ComponentView>,
        |
            #![trigger after.loader_loads(ids, components, loaded)]
            after.loader_loads(ids, components, loaded) == self.loader_loads(
                ids,
                components,
                loaded,
            ) by {
            assert(between.loader_loads(ids, components, loaded) == self.loader_loads(
                ids,
                components,
                loaded,
            ));
        }
    }

    /// Whether `after` has the loader and the unloader of this world.
    pub open spec fn keeps_loader(&self, after: World) -> bool {
        &&& after.has_loader() == self.has_loader()
        &&& after.has_unloader() == self.has_unloader()
        &&& forall|
            ids: Seq<EntityId>,
            components: Map<ComponentInstanceId, ComponentView>,
            loaded: Seq<ComponentView>,
        |
            #![trigger after.loader_loads(ids, components, loaded)]
            after.loader_loads(ids, components, loaded) == self.loader_loads(
                ids,
                components,
                loaded,
            )
    }

    /// Whether an unloader is registered.
    pub closed spec fn has_unloader(&self) -> bool {
        self.unloader is Some
    }

    /// A well-formed world has a well-formed store, which holds the
    /// components of the world, and counts its entities one by one.
    pub proof fn lemma_store(&self)
        ensures
            self.wf() ==> self.store().wf() && self.allocator().stride == 1,
            self.store()@ == self@,
    {
    }

    /// A world without components, resources or hooks.
    pub fn new() -> (world: World)
        ensures
            world.wf(),
            world@ == Map::<ComponentInstanceId, ComponentView>::empty(),
            world.hooks() == Seq::<ChangeHook>::empty(),
            world.resource_keys() == Set::<ResourceKey>::empty(),
            world.allocator() == (EntityAllocator { next: 0, stride: 1 }),
            !world.has_loader(),
            !world.has_unloader(),
            world.undelivered() == 0,
    {
        let world = World {
            store: Store::new(),
            resources: resource_table_new(),
            hooks: Vec::new(),
            loader: None,
            unloader: None,
            allocator: EntityAllocator::new(0, 1),
            undelivered: 0,
        };
        assert(world.resource_keys() =~= Set::<ResourceKey>::empty());
        world
    }

    /// Evaluates a query against the store. The result has no identifier
    /// to give: entities are spawned through the world, or through the
    /// results that the systems of a stage work on.
    pub fn query_world(&self, query: Query) -> (result: QueryResult)
        requires
            self.wf(),
        ensures
            answers(self@, query.types(), result.groups()),
            result.writes() == Seq::<RequestView>::empty(),
            !result.allocator().open(),
            result.allocator() == (EntityAllocator { next: 0, stride: 0 }),
    {
        self.store.query(&query, EntityAllocator::closed())
    }

    pub fn get_component_by_instance_id(&self, id: ComponentInstanceId) -> (found: Option<
        &UntypedComponent,
    >)
        ensures
            found is Some <==> self@.contains_key(id),
            found matches Some(component) ==> component@ == self@[id],
    {
        self.store.get_component_by_instance_id(id)
    }

    pub fn get_all_components_of_entity(&self, id: EntityId) -> (found: Option<
        Vec<UntypedComponent>,
    >)
        requires
            self.wf(),
        ensures
            found is Some <==> self.store().entities().contains_key(id),
            found matches Some(row) ==> is_row(self@, id, component_views(row@)),
    {
        self.store.get_all_components_of_entity(id)
    }

    /// The number of entities in the world: the number of entities that own
    /// a component.
    pub fn number_of_entities(&self) -> (count: usize)
        requires
            self.wf(),
        ensures
            count == self.store().entities().dom().len(),
            count == owners(self@).len(),
    {
        self.store.number_of_entities()
    }

    /// The component of type `T` on the entity `id`, decoded.
    pub fn get_component<T: ComponentType>(&self, id: EntityId) -> (value: Option<T>)
        ensures
            value is Some <==> self@.contains_key(instance_id_of::<T>(id))
                && self@[instance_id_of::<T>(id)].holds::<T>(),
            value matches Some(v) ==> v.encoding() == self@[instance_id_of::<T>(id)].data,
    {
        self.store.get_component::<T>(id)
    }

    /// Hands `request` to the resource it names, under shared access.
    pub fn read_resource(&self, request: &ResourceRequest) -> (answer: Result<Vec<i64>, WorldError>)
        ensures
            answer is Ok <==> self.resource_keys().contains(request.key),
            answer matches Err(error) ==> error == WorldError::ResourceNotFound,
            answer matches Ok(values) ==> (self.resource_sound(request.key)
                ==> self.resource_answers(
                request.key,
                self.resource_state(request.key),
                request@,
                values@,
            )),
    {
        match resource_table_get(&self.resources, request.key.0) {
            Some(resource) => Ok(resource.read(request)),
            None => Err(WorldError::ResourceNotFound),
        }
    }

    /// Hands `request` to the resource it names, under exclusive access. The
    /// store is not touched.
    pub fn write_resource(&mut self, request: &ResourceRequest) -> (outcome: Result<(), WorldError>)
        ensures
            outcome is Ok <==> old(self).resource_keys().contains(request.key),
            outcome matches Err(error) ==> error == WorldError::ResourceNotFound,
            old(self).resources_written(seq![request@], *final(self)),
            final(self).undelivered() == old(self).undelivered(),
            final(self).store() == old(self).store(),
            final(self).hooks() == old(self).hooks(),
            final(self).resource_keys() == old(self).resource_keys(),
            final(self).allocator() == old(self).allocator(),
            old(self).keeps_loader(*final(self)),
    {
        let outcome = match resource_table_get_mut(&mut self.resources, request.key.0) {
            Some(resource) => {
                resource.write(request);
                Ok(())
            },
            None => Err(WorldError::ResourceNotFound),
        };
        proof {
            assert(self.resource_keys() =~= old(self).resource_keys());
            let requests = seq![request@];
            assert(requests.drop_last() =~= Seq::<RequestView>::empty());
            assert(requests.last() == request@);
            assert forall|key: ResourceKey| #[trigger]
                old(self).resource_keys().contains(key) implies old(self).alike(key, *self)
                && self.resource_state(key) == old(self).written(
                key,
                old(self).resource_state(key),
                requests,
            ) by {
                assert(old(self).written(key, old(self).resource_state(key), requests.drop_last())
                    == old(self).resource_state(key));
                if key.0 != request.key.0 {
                    assert(self.resources@[key.0] == old(self).resources@[key.0]);
                }
                assert(ResourceKey(key.0) == key);
            }
        }
        outcome
    }

    /// Applies the queued resource writes, oldest first. A write to a
    /// resource that is not registered is not delivered; the result is the
    /// number of such writes. The store is not touched.
    pub fn execute_command(&mut self, command: ResourceWriter) -> (undelivered: usize)
        ensures
            undelivered == undeliverable(old(self).resource_keys(), command@),
            old(self).commands_executed(command@, *final(self)),
            final(self).store() == old(self).store(),
            final(self).hooks() == old(self).hooks(),
            final(self).resource_keys() == old(self).resource_keys(),
            final(self).allocator() == old(self).allocator(),
            old(self).keeps_loader(*final(self)),
    {
        let requests = command.get_resource_writes();
        let ghost views = request_views(requests@);
        let ghost keys = self.resource_keys();
        let mut undelivered: usize = 0;
        let mut i: usize = 0;
        proof {
            old(self).lemma_nothing_written();
            assert(views.subrange(0, 0) =~= Seq::<RequestView>::empty());
        }
        while i < requests.len()
            invariant
                i <= requests.len(),
                views == request_views(requests@),
                keys == old(self).resource_keys(),
                self.resource_keys() == keys,
                self.store() == old(self).store(),
                self.hooks() == old(self).hooks(),
                self.allocator() == old(self).allocator(),
                old(self).keeps_loader(*self),
                undelivered == undeliverable(keys, views.subrange(0, i as int)),
                undelivered <= i,
                old(self).resources_written(views.subrange(0, i as int), *self),
                self.undelivered() == old(self).undelivered(),
            decreases requests.len() - i,
        {
            proof {
                let next = views.subrange(0, i + 1);
                assert(next.drop_last() =~= views.subrange(0, i as int));
                assert(next.last() == requests[i as int]@);
            }
            let ghost before = *self;
            match self.write_resource(&requests[i]) {
                Ok(_) => {},
                Err(_) => {
                    undelivered += 1;
                },
            }
            proof {
                old(self).lemma_resources_written_concat(
                    views.subrange(0, i as int),
                    before,
                    seq![requests[i as int]@],
                    *self,
                );
                assert(views.subrange(0, i as int) + seq![requests[i as int]@]
                    =~= views.subrange(0, i + 1));
            }
            i += 1;
        }
        proof {
            assert(views.subrange(0, i as int) =~= views);
        }
        let ghost written = *self;
        self.undelivered = self.undelivered.saturating_add(undelivered);
        proof {
            old(self).lemma_resources_carry(*old(self), command@, written, *self);
            old(self).lemma_loader_carries(written, *self);
        }
        undelivered
    }

    /// The number of queued writes that named no registered resource and
    /// were therefore not delivered, over the life of the world.
    pub fn undelivered_writes(&self) -> (count: usize)
        ensures
            count == self.undelivered(),
    {
        self.undelivered
    }

    /// Sends the changes through the pipeline: the hooks are run on them,
    /// what the hooks emit goes through the pipeline first, and then the
    /// changes are committed to the store. The resource writes that the hooks
    /// queue are applied at the end. The result is the number of rounds of
    /// hooks that were run.
    pub fn apply_changes(&mut self, changes: Vec<Change>) -> (rounds_run: usize)
        requires
            old(self).wf(),
        ensures
            final(self).wf(),
            final(self)@ == applied(
                old(self).hooks(),
                old(self)@,
                change_views(changes@),
                MAX_HOOK_DEPTH as nat,
            ),
            rounds_run == rounds(
                old(self).hooks(),
                old(self)@,
                change_views(changes@),
                MAX_HOOK_DEPTH as nat,
            ),
            old(self).commands_executed(
                requested(
                    old(self).hooks(),
                    old(self)@,
                    change_views(changes@),
                    MAX_HOOK_DEPTH as nat,
                ),
                *final(self),
            ),
            final(self).hooks() == old(self).hooks(),
            final(self).resource_keys() == old(self).resource_keys(),
            final(self).allocator() == old(self).allocator(),
            old(self).keeps_loader(*final(self)),
    {
        let mut writer = ResourceWriter::new();
        let rounds_run = apply(&mut self.store, &self.hooks, &changes, MAX_HOOK_DEPTH, &mut writer);
        assert(writer@ =~= requested(
            old(self).hooks(),
            old(self)@,
            change_views(changes@),
            MAX_HOOK_DEPTH as nat,
        ));
        let ghost committed = *self;
        self.execute_command(writer);
        proof {
            old(self).lemma_resources_carry(committed, writer@, *self, *self);
        }
        rounds_run
    }

    /// Starts a new entity with a fresh identifier: the first number from
    /// the world's counter on that no entity of the world has. Only when the
    /// numbers are used up is the last number given again.
    pub fn add_entity(&mut self) -> (builder: EntityBuilder<'_, World>)
        requires
            old(self).wf(),
        ensures
            builder.id == EntityId(first_free(owners(old(self)@), old(self).allocator().next)),
            builder.id.0 >= old(self).allocator().next,
            builder.id.0 < u64::MAX ==> !owners(old(self)@).contains(builder.id),
            builder.components@ == Seq::<UntypedComponent>::empty(),
            builder.spawn_location.store() == old(self).store(),
            builder.spawn_location.wf(),
            builder.spawn_location@ == old(self)@,
            builder.spawn_location.hooks() == old(self).hooks(),
            builder.spawn_location.resource_keys() == old(self).resource_keys(),
            old(self).keeps_loader(*builder.spawn_location),
            builder.spawn_location.undelivered() == old(self).undelivered(),
            old(self).resources_written(Seq::empty(), *builder.spawn_location),
            builder.spawn_location.allocator().stride == 1,
            builder.spawn_location.allocator().next == if builder.id.0 < u64::MAX {
                (builder.id.0 + 1) as u64
            } else {
                u64::MAX
            },
            *final(self) == *final(builder.spawn_location),
    {
        proof {
            self.store.lemma_index_invariants();
            self.lemma_nothing_written();
        }
        while self.allocator.next < u64::MAX && self.store.has_entity(EntityId(self.allocator.next))
            invariant
                self.wf(),
                self.store == old(self).store,
                self.resources == old(self).resources,
                self.hooks == old(self).hooks,
                self.loader == old(self).loader,
                self.unloader == old(self).unloader,
                self.undelivered == old(self).undelivered,
                self.allocator.stride == 1,
                self.allocator.next >= old(self).allocator.next,
                first_free(owners(old(self)@), self.allocator.next) == first_free(
                    owners(old(self)@),
                    old(self).allocator.next,
                ),
            decreases u64::MAX - self.allocator.next,
        {
            self.allocator.next = self.allocator.next + 1;
        }
        let id = self.allocator.allocate();
        proof {
            old(self).lemma_resources_carry(*old(self), Seq::empty(), *old(self), *self);
            old(self).lemma_loader_carries(*old(self), *self);
        }
        EntityBuilder::new(self, id)
    }

    /// Removes an entity: each of its components goes through the pipeline
    /// as a `RemoveComponent` change, in an order that is not specified. For
    /// an entity that is not in the world nothing happens.
    pub fn remove_entity(&mut self, id: EntityId)
        requires
            old(self).wf(),
        ensures
            final(self).wf(),
            final(self).hooks() == old(self).hooks(),
            final(self).resource_keys() == old(self).resource_keys(),
            final(self).allocator() == old(self).allocator(),
            old(self).keeps_loader(*final(self)),
            !old(self).store().entities().contains_key(id) ==> final(self)@ == old(self)@ && old(
                self,
            ).commands_executed(Seq::empty(), *final(self)),
            old(self).store().entities().contains_key(id) ==> exists|row: Seq<ComponentView>|
                #![trigger is_row(old(self)@, id, row)]
                {
                    &&& is_row(old(self)@, id, row)
                    &&& final(self)@ == applied(
                        old(self).hooks(),
                        old(self)@,
                        changes_of(row, ChangeType::RemoveComponent),
                        MAX_HOOK_DEPTH as nat,
                    )
                    &&& old(self).commands_executed(
                        requested(
                            old(self).hooks(),
                            old(self)@,
                            changes_of(row, ChangeType::RemoveComponent),
                            MAX_HOOK_DEPTH as nat,
                        ),
                        *final(self),
                    )
                },
    {
        match self.store.get_all_components_of_entity(id) {
            Some(row) => {
                let changes = changes_from(&row, ChangeType::RemoveComponent);
                self.apply_changes(changes);
                assert(is_row(old(self)@, id, component_views(row@)));
            },
            None => {
                proof {
                    self.lemma_nothing_written();
                    assert(undeliverable(self.resource_keys(), Seq::<RequestView>::empty()) == 0);
                }
            },
        }
    }

    /// Runs one system of a stage against the world: evaluates its query and
    /// lets it work on the answer. A system is the `index`-th of `count`;
    /// the entities it spawns get identifiers that the world has not given,
    /// that no entity of the world has, and that no other system of the
    /// stage gives.
    fn run_system(&self, system: &StagedSystem, index: usize, count: usize) -> (result:
        QueryResult)
        requires
            self.wf(),
        ensures
            ran(*self, *system, index as int, count as int, result),
    {
        let query = system.query();
        let ceiling = self.store.first_above();
        let from = if self.allocator.next >= ceiling {
            self.allocator.next
        } else {
            ceiling
        };
        let first = from.saturating_add(index as u64);
        let stride: u64 = if count == 0 {
            1
        } else {
            count as u64
        };
        let mut result = self.store.query(&query, EntityAllocator::new(first, stride));
        let ghost answer = result;
        system.execute(&mut result, self);
        assert(system.executed(answer, *self, result));
        result
    }

    /// Applies what the systems of a stage left behind: the changes of all
    /// results go through the pipeline together, result after result, and
    /// then the resource writes the systems queued are applied. The result is
    /// the number of rounds of hooks that were run.
    pub fn apply_results(&mut self, results: &Vec<QueryResult>) -> (rounds_run: usize)
        requires
            old(self).wf(),
        ensures
            final(self).wf(),
            final(self).hooks() == old(self).hooks(),
            final(self).resource_keys() == old(self).resource_keys(),
            old(self).keeps_loader(*final(self)),
            final(self).allocator().stride == old(self).allocator().stride,
            final(self).allocator().next == counter_after(old(self).allocator().next, results@),
            final(self).allocator().next >= old(self).allocator().next,
            exists|changes: Seq<ChangeView>|
                #![trigger stage_output(results@, changes)]
                {
                    &&& stage_output(results@, changes)
                    &&& final(self)@ == applied(
                        old(self).hooks(),
                        old(self)@,
                        changes,
                        MAX_HOOK_DEPTH as nat,
                    )
                    &&& rounds_run == rounds(
                        old(self).hooks(),
                        old(self)@,
                        changes,
                        MAX_HOOK_DEPTH as nat,
                    )
                    &&& old(self).commands_executed(
                        requested(old(self).hooks(), old(self)@, changes, MAX_HOOK_DEPTH as nat)
                            + stage_writes(results@),
                        *final(self),
                    )
                },
    {
        let mut changes: Vec<Change> = Vec::new();
        let mut writer = ResourceWriter::new();
        assert(results@.subrange(0, 0) =~= Seq::<QueryResult>::empty());
        let mut next = self.allocator.next;
        let ghost mut parts: Seq<Seq<ChangeView>> = Seq::empty();
        assert(change_views(changes@) =~= parts.flatten());
        let mut i: usize = 0;
        while i < results.len()
            invariant
                i <= results.len(),
                parts.len() == i,
                forall|j: int| 0 <= j < i ==> results[j].dissolves_to(#[trigger] parts[j]),
                change_views(changes@) == parts.flatten(),
                writer@ == stage_writes(results@.subrange(0, i as int)),
                next == counter_after(self.allocator().next, results@.subrange(0, i as int)),
            decreases results.len() - i,
        {
            let mut more = results[i].get_changes();
            proof {
                let seen = results@.subrange(0, i + 1);
                assert(seen.drop_last() =~= results@.subrange(0, i as int));
                assert(seen.last() == results[i as int]);
                let before = parts;
                parts = parts.push(change_views(more@));
                before.lemma_flatten_push(change_views(more@));
                assert(change_views(changes@ + more@) =~= change_views(changes@) + change_views(
                    more@,
                ));
            }
            changes.append(&mut more);
            writer.append(results[i].get_resource_writes());
            if results[i].next_entity() > next {
                next = results[i].next_entity();
            }
            i += 1;
        }
        proof {
            assert(results@.subrange(0, i as int) =~= results@);
            lemma_counter_after(self.allocator().next, results@);
        }
        self.allocator.next = next;
        let ghost started = *self;
        let rounds_run = self.apply_changes(changes);
        let ghost applied_world = *self;
        self.execute_command(writer);
        proof {
            assert(stage_output(results@, parts.flatten()));
            started.lemma_commands_executed_concat(
                requested(old(self).hooks(), old(self)@, parts.flatten(), MAX_HOOK_DEPTH as nat),
                applied_world,
                stage_writes(results@),
                *self,
            );
            old(self).lemma_commands_carry(
                started,
                requested(old(self).hooks(), old(self)@, parts.flatten(), MAX_HOOK_DEPTH as nat)
                    + stage_writes(results@),
                *self,
                *self,
            );
        }
        rounds_run
    }

    /// Executes a stage: every system runs against the world as it is, in
    /// parallel, and what the systems leave behind is applied afterwards.
    pub fn execute_stage(&mut self, stage: &Stage)
        requires
            old(self).wf(),
        ensures
            final(self).wf(),
            final(self).hooks() == old(self).hooks(),
            final(self).resource_keys() == old(self).resource_keys(),
            old(self).keeps_loader(*final(self)),
            final(self).allocator().stride == old(self).allocator().stride,
            final(self).allocator().next >= old(self).allocator().next,
            exists|results: Seq<QueryResult>, changes: Seq<ChangeView>|
                #![trigger stage_output(results, changes)]
                {
                    &&& results.len() == stage.count()
                    &&& forall|i: int|
                        0 <= i < results.len() ==> #[trigger] ran(
                            *old(self),
                            stage.systems()[i],
                            i,
                            results.len() as int,
                            results[i],
                        )
                    &&& final(self).allocator().next == counter_after(
                        old(self).allocator().next,
                        results,
                    )
                    &&& stage_output(results, changes)
                    &&& final(self)@ == applied(
                        old(self).hooks(),
                        old(self)@,
                        changes,
                        MAX_HOOK_DEPTH as nat,
                    )
                    &&& old(self).commands_executed(
                        requested(old(self).hooks(), old(self)@, changes, MAX_HOOK_DEPTH as nat)
                            + stage_writes(results),
                        *final(self),
                    )
                },
    {
        let results = run_systems(self, stage.iter());
        proof {
            lemma_counter_after(self.allocator().next, results@);
        }
        self.apply_results(&results);
    }

    /// Asks the loader for the entities `ids` and adds the components it
    /// returns through the pipeline. The result names the entities that
    /// components were loaded for, each once. Without a loader nothing is
    /// loaded.
    pub fn load(&mut self, ids: Vec<EntityId>) -> (loaded: Vec<EntityId>)
        requires
            old(self).wf(),
        ensures
            final(self).wf(),
            final(self).hooks() == old(self).hooks(),
            final(self).resource_keys() == old(self).resource_keys(),
            final(self).allocator() == old(self).allocator(),
            old(self).keeps_loader(*final(self)),
            loaded@.no_duplicates(),
            !old(self).has_loader() ==> final(self)@ == old(self)@ && loaded@.len() == 0 && old(
                self,
            ).commands_executed(Seq::empty(), *final(self)),
            old(self).has_loader() ==> exists|components: Seq<ComponentView>|
                #![trigger old(self).loader_loads(ids@, old(self)@, components)]
                {
                &&& old(self).loader_loads(ids@, old(self)@, components)
                &&& final(self)@ == applied(
                    old(self).hooks(),
                    old(self)@,
                    changes_of(components, ChangeType::AddComponent),
                    MAX_HOOK_DEPTH as nat,
                )
                &&& old(self).commands_executed(
                    requested(
                        old(self).hooks(),
                        old(self)@,
                        changes_of(components, ChangeType::AddComponent),
                        MAX_HOOK_DEPTH as nat,
                    ),
                    *final(self),
                )
                &&& forall|entity: EntityId|
                    loaded@.contains(entity) <==> exists|i: int|
                        0 <= i < components.len() && (#[trigger] components[i]).id.0 == entity
            },
    {
        let ghost asked = ids@;
        let components = match &self.loader {
            Some(loader) => Some(loader.load(ids, &self.store)),
            None => None,
        };
        match components {
            Some(components) => {
                let ghost views = component_views(components@);
                assert(old(self).loader_loads(asked, old(self)@, views));
                let loaded = entities_of(&components);
                let changes = changes_from(&components, ChangeType::AddComponent);
                self.apply_changes(changes);
                loaded
            },
            None => {
                proof {
                    self.lemma_nothing_written();
                    assert(undeliverable(self.resource_keys(), Seq::<RequestView>::empty()) == 0);
                }
                Vec::new()
            },
        }
    }
}

impl SpawnLocation for World {
    open spec fn ready(&self) -> bool {
        self.wf()
    }

    /// A spawn sends one `AddComponent` change for each component through the
    /// pipeline.
    open spec fn spawned(&self, components: Seq<ComponentView>, after: Self) -> bool {
        &&& after@ == applied(
            self.hooks(),
            self@,
            changes_of(components, ChangeType::AddComponent),
            MAX_HOOK_DEPTH as nat,
        )
        &&& self.commands_executed(
            requested(
                self.hooks(),
                self@,
                changes_of(components, ChangeType::AddComponent),
                MAX_HOOK_DEPTH as nat,
            ),
            after,
        )
        &&& after.hooks() == self.hooks()
        &&& after.resource_keys() == self.resource_keys()
        &&& after.allocator() == self.allocator()
        &&& self.keeps_loader(after)
    }

    fn spawn(&mut self, components: Vec<UntypedComponent>)
    {
        let changes = changes_from(&components, ChangeType::AddComponent);
        self.apply_changes(changes);
    }
}

/// `rayon`'s `par_iter`, `enumerate`, `map` and `collect` on the systems of a
/// stage: `World::run_system` runs for every system with its place in the
/// stage, on the worker threads of `rayon`, and the results come back in the
/// order of the systems. Each result is what `World::run_system` ensures of
/// it.
#[verifier::external_body]
fn run_systems(world: &World, systems: &Vec<StagedSystem>) -> (results: Vec<QueryResult>)
    requires
        world.wf(),
    ensures
        results.len() == systems.len(),
        forall|i: int|
            0 <= i < systems.len() ==> #[trigger] ran(
                *world,
                systems[i],
                i,
                systems.len() as int,
                results[i],
            ),
{
    let count = systems.len();
    systems.par_iter().enumerate().map(|(index, system)| world.run_system(system, index, count)).collect()
}

/// One change of the given kind for each component, in their order.
pub fn changes_from(components: &Vec<UntypedComponent>, kind: ChangeType) -> (changes: Vec<Change>)
    ensures
        change_views(changes@) == changes_of(component_views(components@), kind),
{
    let mut changes: Vec<Change> = Vec::new();
    let mut i: usize = 0;
    while i < components.len()
        invariant
            i <= components.len(),
            changes.len() == i,
            forall|j: int|
                0 <= j < i ==> (#[trigger] changes[j])@ == (ChangeView {
                    component: components[j]@,
                    kind,
                }),
        decreases components.len() - i,
    {
        changes.push(Change(components[i].clone(), kind));
        i += 1;
    }
    assert(change_views(changes@) =~= changes_of(component_views(components@), kind));
    changes
}

/// The entities that the components belong to, each once, in the order of
/// their first component.
pub fn entities_of(components: &Vec<UntypedComponent>) -> (entities: Vec<EntityId>)
    ensures
        entities@.no_duplicates(),
        forall|entity: EntityId|
            entities@.contains(entity) <==> exists|i: int|
                0 <= i < components.len() && (#[trigger] component_views(components@)[i]).id.0
                    == entity,
{
    let ghost views = component_views(components@);
    let mut entities: Vec<EntityId> = Vec::new();
    let mut i: usize = 0;
    while i < components.len()
        invariant
            i <= components.len(),
            views == component_views(components@),
            entities@.no_duplicates(),
            forall|entity: EntityId|
                entities@.contains(entity) <==> exists|j: int|
                    0 <= j < i && (#[trigger] views[j]).id.0 == entity,
        decreases components.len() - i,
    {
        let entity = components[i].entity_id();
        let mut known = false;
        let mut k: usize = 0;
        while k < entities.len()
            invariant
                k <= entities.len(),
                known <==> exists|j: int| 0 <= j < k && entities[j] == entity,
            decreases entities.len() - k,
        {
            if entities[k] == entity {
                known = true;
            }
            k += 1;
        }
        let ghost before = entities@;
        if !known {
            entities.push(entity);
        }
        proof {
            assert(views[i as int].id.0 == entity);
            assert(known == before.contains(entity));
            assert forall|other: EntityId| entities@.contains(other) <==> exists|j: int|
                0 <= j < i + 1 && (#[trigger] views[j]).id.0 == other by {
                if entities@.contains(other) {
                    if before.contains(other) {
                        let j = choose|j: int| 0 <= j < i && (#[trigger] views[j]).id.0 == other;
                        assert(0 <= j < i + 1);
                    } else {
                        assert(other == entity);
                    }
                }
                if exists|j: int| 0 <= j < i + 1 && (#[trigger] views[j]).id.0 == other {
                    let j = choose|j: int| 0 <= j < i + 1 && (#[trigger] views[j]).id.0 == other;
                    if j < i {
                        assert(before.contains(other));
                        let at = choose|at: int| 0 <= at < before.len() && before[at] == other;
                        assert(entities@[at] == other);
                    } else {
                        if known {
                            let at = choose|at: int| 0 <= at < before.len() && before[at] == other;
                            assert(entities@[at] == other);
                        } else {
                            assert(entities@[entities.len() - 1] == other);
                        }
                    }
                }
            }
        }
        i += 1;
    }
    entities
}

/// Puts a world together: its resources, its hooks, and what loads and
/// unloads its entities.
pub struct WorldBuilder {
    world: World,
}

impl WorldBuilder {
    /// The world as built so far.
    pub closed spec fn world(&self) -> World {
        self.world
    }

    pub fn new() -> (builder: WorldBuilder)
        ensures
            builder.world().wf(),
            builder.world()@ == Map::<ComponentInstanceId, ComponentView>::empty(),
            builder.world().hooks() == Seq::<ChangeHook>::empty(),
            builder.world().resource_keys() == Set::<ResourceKey>::empty(),
            builder.world().allocator() == (EntityAllocator { next: 0, stride: 1 }),
            !builder.world().has_loader(),
            !builder.world().has_unloader(),
            builder.world().undelivered() == 0,
    {
        WorldBuilder { world: World::new() }
    }

    /// Registers a resource under its key, in place of any resource that was
    /// registered under it. The other resources stay as they are.
    pub fn with_resource<R: Resource + 'static>(self, resource: R) -> (builder: Self)
        ensures
            builder.world().resource_keys() == self.world().resource_keys().insert(
                resource.registered_key(),
            ),
            builder.world().holds(resource),
            forall|key: ResourceKey|
                #![trigger self.world().kept(key, builder.world())]
                self.world().resource_keys().contains(key) && key != resource.registered_key()
                    ==> self.world().kept(key, builder.world()),
            builder.world().undelivered() == self.world().undelivered(),
            builder.world().store() == self.world().store(),
            builder.world().wf() == self.world().wf(),
            builder.world()@ == self.world()@,
            builder.world().hooks() == self.world().hooks(),
            builder.world().allocator() == self.world().allocator(),
            self.world().keeps_loader(builder.world()),
    {
        let mut builder = self;
        let key = resource.key();
        resource_table_insert(
            &mut builder.world.resources,
            key.0,
            Box::new(HeldResource { inner: resource }),
        );
        proof {
            assert(builder.world().resource_keys() =~= self.world().resource_keys().insert(key));
            assert forall|other: ResourceKey|
                #![trigger self.world().kept(other, builder.world())]
                self.world().resource_keys().contains(other) && other != key implies self.world().kept(
                other,
                builder.world(),
            ) by {
                assert(builder.world.resources@[other.0] == self.world.resources@[other.0]);
            }
        }
        builder
    }

    /// Registers what brings entities back into the world, in place of any
    /// loader that was registered.
    pub fn with_loader<L: Loader + 'static>(self, loader: L) -> (builder: Self)
        ensures
            builder.world().has_loader(),
            forall|
                ids: Seq<EntityId>,
                components: Map<ComponentInstanceId, ComponentView>,
                loaded: Seq<ComponentView>,
            |
                #![trigger builder.world().loader_loads(ids, components, loaded)]
                builder.world().loader_loads(ids, components, loaded) == loader.loads(
                    ids,
                    components,
                    loaded,
                ),
            builder.world().has_unloader() == self.world().has_unloader(),
            builder.world().store() == self.world().store(),
            builder.world().wf() == self.world().wf(),
            builder.world()@ == self.world()@,
            builder.world().hooks() == self.world().hooks(),
            builder.world().resource_keys() == self.world().resource_keys(),
            self.world().resources_written(Seq::empty(), builder.world()),
            builder.world().undelivered() == self.world().undelivered(),
            builder.world().allocator() == self.world().allocator(),
    {
        let mut builder = self;
        builder.world.loader = Some(Box::new(HeldLoader { inner: loader }));
        builder
    }

    /// Registers what writes components out when they are unloaded, in
    /// place of any unloader that was registered.
    pub fn with_unloader<U: Unloader + 'static>(self, unloader: U) -> (builder: Self)
        ensures
            builder.world().has_unloader(),
            builder.world().store() == self.world().store(),
            builder.world().wf() == self.world().wf(),
            builder.world()@ == self.world()@,
            builder.world().hooks() == self.world().hooks(),
            builder.world().resource_keys() == self.world().resource_keys(),
            self.world().resources_written(Seq::empty(), builder.world()),
            builder.world().undelivered() == self.world().undelivered(),
            builder.world().allocator() == self.world().allocator(),
            builder.world().has_loader() == self.world().has_loader(),
            forall|
                ids: Seq<EntityId>,
                components: Map<ComponentInstanceId, ComponentView>,
                loaded: Seq<ComponentView>,
            |
                #![trigger builder.world().loader_loads(ids, components, loaded)]
                builder.world().loader_loads(ids, components, loaded) == self.world().loader_loads(
                    ids,
                    components,
                    loaded,
                ),
    {
        let mut builder = self;
        let boxed: Box<dyn Unloader> = Box::new(unloader);
        builder.world.unloader = Some(boxed);
        builder
    }

    /// Registers a hook behind the hooks already registered.
    pub fn with_change_hook(self, hook: ChangeHook) -> (builder: Self)
        ensures
            builder.world().hooks() == self.world().hooks().push(hook),
            builder.world().store() == self.world().store(),
            builder.world().wf() == self.world().wf(),
            builder.world()@ == self.world()@,
            builder.world().resource_keys() == self.world().resource_keys(),
            self.world().resources_written(Seq::empty(), builder.world()),
            builder.world().undelivered() == self.world().undelivered(),
            builder.world().allocator() == self.world().allocator(),
            self.world().keeps_loader(builder.world()),
    {
        let mut builder = self;
        builder.world.hooks.push(hook);
        builder
    }

    /// Registers a hook that runs on every change, behind the hooks already
    /// registered.
    pub fn with_hook<H: Hook + 'static>(self, hook: H) -> (builder: Self)
        ensures
            builder.world().hooks().len() == self.world().hooks().len() + 1,
            builder.world().hooks().drop_last() == self.world().hooks(),
            builder.world().hooks().last().component_type() is None,
            forall|change: ChangeView, components: Map<ComponentInstanceId, ComponentView>|
                #![trigger builder.world().hooks().last().rule_reaction(change, components)]
                builder.world().hooks().last().rule_reaction(change, components) == hook.reaction(
                    change,
                    components,
                ),
            forall|change: ChangeView, components: Map<ComponentInstanceId, ComponentView>|
                #![trigger builder.world().hooks().last().rule_requests(change, components)]
                builder.world().hooks().last().rule_requests(change, components) == hook.requests(
                    change,
                    components,
                ),
            builder.world().store() == self.world().store(),
            builder.world().wf() == self.world().wf(),
            builder.world()@ == self.world()@,
            builder.world().resource_keys() == self.world().resource_keys(),
            self.world().resources_written(Seq::empty(), builder.world()),
            builder.world().undelivered() == self.world().undelivered(),
            builder.world().allocator() == self.world().allocator(),
            self.world().keeps_loader(builder.world()),
    {
        let mut builder = self;
        builder.world.hooks.push(
            ChangeHook::new(Rule::Custom(Box::new(HeldHook { inner: hook }))),
        );
        assert(builder.world().hooks().drop_last() =~= self.world().hooks());
        builder
    }

    /// Registers a hook that runs on the changes of components of type `T`,
    /// behind the hooks already registered.
    pub fn with_typed_hook<T: ComponentType, H: Hook + 'static>(self, hook: H) -> (builder: Self)
        ensures
            builder.world().hooks().len() == self.world().hooks().len() + 1,
            builder.world().hooks().drop_last() == self.world().hooks(),
            builder.world().hooks().last().component_type() == Some(
                crate::component::type_id_of::<T>(),
            ),
            forall|change: ChangeView, components: Map<ComponentInstanceId, ComponentView>|
                #![trigger builder.world().hooks().last().rule_reaction(change, components)]
                builder.world().hooks().last().rule_reaction(change, components) == hook.reaction(
                    change,
                    components,
                ),
            forall|change: ChangeView, components: Map<ComponentInstanceId, ComponentView>|
                #![trigger builder.world().hooks().last().rule_requests(change, components)]
                builder.world().hooks().last().rule_requests(change, components) == hook.requests(
                    change,
                    components,
                ),
            builder.world().store() == self.world().store(),
            builder.world().wf() == self.world().wf(),
            builder.world()@ == self.world()@,
            builder.world().resource_keys() == self.world().resource_keys(),
            self.world().resources_written(Seq::empty(), builder.world()),
            builder.world().undelivered() == self.world().undelivered(),
            builder.world().allocator() == self.world().allocator(),
            self.world().keeps_loader(builder.world()),
    {
        let mut builder = self;
        builder.world.hooks.push(
            ChangeHook::new_typed::<T>(Rule::Custom(Box::new(HeldHook { inner: hook }))),
        );
        assert(builder.world().hooks().drop_last() =~= self.world().hooks());
        builder
    }

    pub fn build(self) -> (world: World)
        ensures
            world == self.world(),
    {
        self.world
    }
}

impl Default for WorldBuilder {
    fn default() -> (builder: WorldBuilder)
        ensures
            builder.world().wf(),
            builder.world()@ == Map::<ComponentInstanceId, ComponentView>::empty(),
    {
        WorldBuilder::new()
    }
}

impl Default for World {
    fn default() -> (world: World)
        ensures
            world.wf(),
            world@ == Map::<ComponentInstanceId, ComponentView>::empty(),
    {
        World::new()
    }
}

} // verus!
