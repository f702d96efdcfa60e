//! Queries, the views they yield, and the changes those views dissolve into.

use vstd::prelude::*;
use crate::component::{
    type_id, type_id_of, ComponentType, ComponentTypeId, ComponentView, TypedComponent,
    UntypedComponent,
};
use crate::entity_builder::{EntityBuilder, SpawnLocation};
use crate::entity_id::{EntityAllocator, EntityId};
use crate::resource::{RequestView, ResourceRequest};
use crate::resource_writer::ResourceWriter;
use crate::tables::{
    component_table_get, component_table_insert, component_table_new, id_set_insert, id_set_new,
    id_set_to_vec, ComponentTable, IdSet,
};

verus! {

/// What a change does with its component.
///
/// `UnloadComponent` is a removal made by a persistence layer that evicts the
/// component. The store treats it as it treats `RemoveComponent`; hooks can
/// tell the two apart.
#[derive(Clone, Copy, Hash, PartialEq, Eq, Debug, Structural)]
pub enum ChangeType {
    RemoveComponent,
    UnloadComponent,
    AddComponent,
    UpdateComponent,
}

/// What a change is, as plain values.
pub struct ChangeView {
    pub component: ComponentView,
    pub kind: ChangeType,
}

/// One mutation of the world at the level of a component.
#[derive(Debug)]
pub struct Change(pub UntypedComponent, pub ChangeType);

impl View for Change {
    type V = ChangeView;

    open spec fn view(&self) -> ChangeView {
        ChangeView { component: self.0@, kind: self.1 }
    }
}

impl Clone for Change {
    fn clone(&self) -> (copy: Self)
        ensures
            copy@ == self@,
    {
        Change(self.0.clone(), self.1)
    }
}

/// The changes of a sequence, as plain values.
pub open spec fn change_views(changes: Seq<Change>) -> Seq<ChangeView> {
    Seq::new(changes.len(), |i: int| changes[i]@)
}

/// A conjunctive query: a set of component types. It matches the entities that
/// carry a component of each of them.
pub struct Query {
    pub components: IdSet,
}

impl Query {
    /// The component types the query asks for.
    pub open spec fn types(&self) -> Set<ComponentTypeId> {
        Set::new(|t: ComponentTypeId| self.components@.contains(t.0))
    }
}

pub struct QueryBuilder {
    query: Query,
}

impl QueryBuilder {
    /// The component types asked for so far.
    pub closed spec fn types(&self) -> Set<ComponentTypeId> {
        self.query.types()
    }

    pub fn new() -> (builder: Self)
        ensures
            builder.types() == Set::<ComponentTypeId>::empty(),
    {
        let builder = QueryBuilder { query: Query { components: id_set_new() } };
        assert(builder.types() =~= Set::<ComponentTypeId>::empty());
        builder
    }

    /// Asks for the component type `T` as well.
    pub fn with<T: ComponentType>(self) -> (builder: Self)
        ensures
            builder.types() == self.types().insert(type_id_of::<T>()),
    {
        self.with_type(type_id::<T>())
    }

    /// Asks for the component type `id` as well.
    pub fn with_type(self, id: ComponentTypeId) -> (builder: Self)
        ensures
            builder.types() == self.types().insert(id),
    {
        let mut builder = self;
        id_set_insert(&mut builder.query.components, id.0);
        assert(builder.types() =~= self.types().insert(id));
        builder
    }

    pub fn build(self) -> (query: Query)
        ensures
            query.types() == self.types(),
    {
        self.query
    }
}

impl Default for QueryBuilder {
    fn default() -> (builder: Self)
        ensures
            builder.types() == Set::<ComponentTypeId>::empty(),
    {
        Self::new()
    }
}

/// The components of a group by type: each component is filed under its own
/// type, and of two components of one type the later one stays.
pub open spec fn grouped(components: Seq<ComponentView>) -> Map<ComponentTypeId, ComponentView>
    decreases components.len(),
{
    if components.len() == 0 {
        Map::empty()
    } else {
        grouped(components.drop_last()).insert(components.last().id.1, components.last())
    }
}

/// The row of one matched entity: all of its components, by type.
///
/// A group remembers which of its components were written ("dirty"). When the
/// group is dissolved, each dirty component becomes one change: an
/// `UpdateComponent`, or an `AddComponent` if the group was spawned by the
/// system rather than matched by the query.
pub struct ComponentGroup {
    id: EntityId,
    components: ComponentTable,
    dirty: IdSet,
    new: bool,
}

/// The key under which a group files the component of a type.
pub(crate) open spec fn slot(id: ComponentTypeId) -> (u64, u64) {
    (0u64, id.0)
}

impl ComponentGroup {
    /// The entity the group stands for.
    pub closed spec fn id(&self) -> EntityId {
        self.id
    }

    /// Whether the group was spawned by a system.
    pub closed spec fn is_new(&self) -> bool {
        self.new
    }

    /// The components of the group, each under its own type.
    pub closed spec fn components(&self) -> Map<ComponentTypeId, ComponentView> {
        Map::new(
            |t: ComponentTypeId|
                self.components@.contains_key(slot(t)) && self.components@[slot(t)]@.id.1 == t,
            |t: ComponentTypeId| self.components@[slot(t)]@,
        )
    }

    /// The types of the components that were written.
    pub closed spec fn dirty(&self) -> Set<ComponentTypeId> {
        Set::new(|t: ComponentTypeId| self.dirty@.contains(t.0) && self.components().contains_key(t))
    }

    /// Every component of the group is filed under its own type.
    pub proof fn lemma_filed_by_type(&self)
        ensures
            forall|t: ComponentTypeId| #[trigger]
                self.components().contains_key(t) ==> self.components()[t].id.1 == t,
    {
    }

    /// The kind of change a dirty component of the group becomes.
    pub open spec fn change_kind(&self) -> ChangeType {
        if self.is_new() {
            ChangeType::AddComponent
        } else {
            ChangeType::UpdateComponent
        }
    }

    /// Whether `changes` is what the group dissolves into: one change for each
    /// dirty component, in some order.
    pub open spec fn emits(&self, changes: Seq<ChangeView>) -> bool {
        exists|types: Seq<ComponentTypeId>|
            {
                &&& types.no_duplicates()
                &&& types.to_set() == self.dirty()
                &&& #[trigger] types.len() == changes.len()
                &&& forall|i: int|
                    0 <= i < changes.len() ==> changes[i] == (ChangeView {
                        component: self.components()[types[i]],
                        kind: self.change_kind(),
                    })
            }
    }

    /// Every written component is a component of the group.
    pub proof fn lemma_dirty_has_component(&self)
        ensures
            forall|t: ComponentTypeId| #[trigger]
                self.dirty().contains(t) ==> self.components().contains_key(t),
    {
    }

    pub fn get_id(&self) -> (id: EntityId)
        ensures
            id == self.id(),
    {
        self.id
    }

    /// Files `components` by type. With `new`, the group counts as spawned and
    /// all of its components as written.
    fn assemble(id: EntityId, components: &Vec<UntypedComponent>, new: bool) -> (group: Self)
        ensures
            group.id() == id,
            group.is_new() == new,
            group.components() == grouped(crate::component::component_views(components@)),
            group.dirty() == if new {
                group.components().dom()
            } else {
                Set::empty()
            },
    {
        let mut group = ComponentGroup {
            id,
            components: component_table_new(),
            dirty: id_set_new(),
            new,
        };
        let ghost views = crate::component::component_views(components@);
        assert(group.components() =~= grouped(views.subrange(0, 0)));
        assert(group.dirty() =~= Set::empty());
        let mut i: usize = 0;
        while i < components.len()
            invariant
                i <= components.len(),
                views == crate::component::component_views(components@),
                group.id == id,
                group.new == new,
                group.components() == grouped(views.subrange(0, i as int)),
                group.dirty() == if new {
                    group.components().dom()
                } else {
                    Set::empty()
                },
                !new ==> group.dirty@ == Set::<u64>::empty(),
            decreases components.len() - i,
        {
            let component = components[i].clone();
            let type_id = component.get_type();
            let ghost before = group;
            component_table_insert(&mut group.components, (0u64, type_id.0), component);
            if new {
                id_set_insert(&mut group.dirty, type_id.0);
            }
            proof {
                let next = views.subrange(0, i + 1);
                assert(next.drop_last() =~= views.subrange(0, i as int));
                assert(next.last() == component@);
                assert(group.components() =~= before.components().insert(type_id, component@));
                if new {
                    assert(group.dirty() =~= group.components().dom());
                } else {
                    assert(group.dirty() =~= Set::empty());
                }
            }
            i += 1;
        }
        proof {
            assert(views.subrange(0, i as int) =~= views);
        }
        group
    }

    /// The group of a matched entity: `components` filed by type, none of
    /// them written.
    pub fn new(id: EntityId, components: Vec<UntypedComponent>) -> (group: Self)
        ensures
            group.id() == id,
            !group.is_new(),
            group.components() == grouped(crate::component::component_views(components@)),
            group.dirty() == Set::<ComponentTypeId>::empty(),
    {
        Self::assemble(id, &components, false)
    }

    /// The group of an entity that a system spawns: `components` filed by
    /// type, all of them written.
    pub fn spawned(id: EntityId, components: Vec<UntypedComponent>) -> (group: Self)
        ensures
            group.id() == id,
            group.is_new(),
            group.components() == grouped(crate::component::component_views(components@)),
            group.dirty() == group.components().dom(),
    {
        Self::assemble(id, &components, true)
    }

    /// Puts `component` in the place of the component of its type and marks
    /// it as written.
    pub fn put(&mut self, component: UntypedComponent)
        ensures
            final(self).id() == old(self).id(),
            final(self).is_new() == old(self).is_new(),
            final(self).components() == old(self).components().insert(
                component@.id.1,
                component@,
            ),
            final(self).dirty() == old(self).dirty().insert(component@.id.1),
    {
        let id = component.get_type();
        component_table_insert(&mut self.components, (0u64, id.0), component);
        id_set_insert(&mut self.dirty, id.0);
        assert(self.components() =~= old(self).components().insert(id, component@));
        assert(self.dirty() =~= old(self).dirty().insert(id));
    }

    /// The component of type `T`, decoded. The group stays as it is.
    pub fn read<T: ComponentType>(&self) -> (value: Option<T>)
        ensures
            value is Some <==> self.components().contains_key(type_id_of::<T>())
                && self.components()[type_id_of::<T>()].holds::<T>(),
            value matches Some(v) ==> v.encoding() == self.components()[type_id_of::<T>()].data,
    {
        let id = type_id::<T>();
        match component_table_get(&self.components, (0u64, id.0)) {
            Some(component) => component.get::<T>(),
            None => None,
        }
    }

    /// A handle over the component of type `T`, through which it can be read
    /// and written. A write reaches the group when the handle is committed.
    pub fn get<T: ComponentType>(&mut self) -> (handle: Option<TypedComponentWriteback<'_, T>>)
        ensures
            handle is Some <==> old(self).components().contains_key(type_id_of::<T>())
                && old(self).components()[type_id_of::<T>()].holds::<T>(),
            handle is None ==> *final(self) == *old(self),
            handle matches Some(h) ==> {
                &&& *h.group == *old(self)
                &&& *final(h.group) == *final(self)
                &&& h.component.source() == old(self).components()[type_id_of::<T>()]
                &&& !h.component.changed()
                &&& h.component.value().encoding() == h.component.source().data
            },
    {
        let id = type_id::<T>();
        let found = match component_table_get(&self.components, (0u64, id.0)) {
            Some(component) => TypedComponent::<T>::new(component.clone()),
            None => None,
        };
        match found {
            Some(component) => Some(TypedComponentWriteback { component, group: self }),
            None => None,
        }
    }

    /// The changes the group dissolves into.
    pub fn get_changes(&self) -> (changes: Vec<Change>)
        ensures
            self.emits(change_views(changes@)),
    {
        let ids = id_set_to_vec(&self.dirty);
        let kind = if self.new {
            ChangeType::AddComponent
        } else {
            ChangeType::UpdateComponent
        };
        let mut changes: Vec<Change> = Vec::new();
        let ghost mut types: Seq<ComponentTypeId> = Seq::empty();
        let mut i: usize = 0;
        while i < ids.len()
            invariant
                i <= ids.len(),
                ids@.no_duplicates(),
                forall|id: u64| ids@.contains(id) <==> self.dirty@.contains(id),
                kind == self.change_kind(),
                types.len() == changes.len(),
                types.no_duplicates(),
                forall|j: int|
                    0 <= j < types.len() ==> self.dirty().contains(#[trigger] types[j]) && exists|
                        k: int,
                    |
                        0 <= k < i && ids[k] == types[j].0,
                forall|k: int|
                    0 <= k < i && self.components().contains_key(ComponentTypeId(#[trigger] ids[k]))
                        ==> types.contains(ComponentTypeId(ids[k])),
                forall|j: int|
                    0 <= j < changes.len() ==> (#[trigger] changes[j])@ == (ChangeView {
                        component: self.components()[types[j]],
                        kind,
                    }),
            decreases ids.len() - i,
        {
            let number = ids[i];
            let found = match component_table_get(&self.components, (0u64, number)) {
                Some(component) => if component.get_type().0 == number {
                    Some(component)
                } else {
                    None
                },
                None => None,
            };
            match found {
                Some(component) => {
                    let change = Change(component.clone(), kind);
                    proof {
                        let t = ComponentTypeId(number);
                        assert(ids@.contains(number));
                        assert(self.dirty().contains(t));
                        assert(!types.contains(t)) by {
                            if types.contains(t) {
                                let j = choose|j: int| 0 <= j < types.len() && types[j] == t;
                                let k = choose|k: int| 0 <= k < i && ids[k] == types[j].0;
                                assert(ids[k] == ids[i as int]);
                            }
                        }
                        let ghost_types = types;
                        types = types.push(t);
                        assert(forall|j: int| 0 <= j < ghost_types.len() ==> types[j] == ghost_types[j]);
                        assert(types[ghost_types.len() as int] == t);
                        assert(forall|k: int|
                            0 <= k < i && self.components().contains_key(
                                ComponentTypeId(#[trigger] ids[k]),
                            ) ==> types.contains(ComponentTypeId(ids[k]))) by {
                            assert forall|k: int|
                                0 <= k < i && self.components().contains_key(
                                    ComponentTypeId(#[trigger] ids[k]),
                                ) implies types.contains(ComponentTypeId(ids[k])) by {
                                let j = choose|j: int|
                                    0 <= j < ghost_types.len() && ghost_types[j] == ComponentTypeId(
                                        ids[k],
                                    );
                                assert(types[j] == ComponentTypeId(ids[k]));
                            }
                        }
                    }
                    changes.push(change);
                },
                None => {},
            }
            i += 1;
        }
        proof {
            assert(types.to_set() =~= self.dirty()) by {
                assert forall|t: ComponentTypeId| self.dirty().contains(t) implies types.contains(
                    t,
                ) by {
                    assert(ids@.contains(t.0));
                    let k = choose|k: int| 0 <= k < ids.len() && ids[k] == t.0;
                    assert(ComponentTypeId(ids[k]) == t);
                    assert(self.components().contains_key(ComponentTypeId(ids[k])));
                }
            }
            let views = change_views(changes@);
            assert(types.len() == views.len());
            assert(forall|j: int|
                0 <= j < views.len() ==> views[j] == (ChangeView {
                    component: self.components()[types[j]],
                    kind: self.change_kind(),
                }));
        }
        changes
    }
}

/// A handle over one component of a group, with write-back.
///
/// The handle reads through to the component it was made from. A mutable
/// borrow changes the handle's own copy; `commit` puts the changed value into
/// the group and marks it as written. A handle that was only read from leaves
/// the group untouched, committed or not.
pub struct TypedComponentWriteback<'a, T: ComponentType> {
    pub component: TypedComponent<T>,
    pub group: &'a mut ComponentGroup,
}

impl<'a, T: ComponentType> TypedComponentWriteback<'a, T> {
    pub fn get(&self) -> (value: &T)
        ensures
            *value == self.component.value(),
    {
        self.component.get()
    }

    pub fn make_mut(&mut self) -> (value: &mut T)
        ensures
            *value == old(self).component.value(),
            final(self).component.value() == *final(value),
            final(self).component.source() == old(self).component.source(),
            final(self).component.changed(),
            *final(self).group == *old(self).group,
            *final(final(self).group) == *final(old(self).group),
    {
        self.component.make_mut()
    }

    /// Writes the component back. If it was borrowed mutably, the new value
    /// takes the place of the old one in the group and counts as written;
    /// otherwise nothing happens.
    pub fn commit(self)
        ensures
            final(self.group).id() == old(self.group).id(),
            final(self.group).is_new() == old(self.group).is_new(),
            self.component.changed() ==> {
                &&& final(self.group).components() == old(self.group).components().insert(
                    self.component.untyped().id.1,
                    self.component.untyped(),
                )
                &&& final(self.group).dirty() == old(self.group).dirty().insert(
                    self.component.untyped().id.1,
                )
            },
            !self.component.changed() ==> *final(self.group) == *old(self.group),
    {
        let TypedComponentWriteback { component, group } = self;
        if component.is_changed() {
            group.put(component.get_untyped());
        }
    }
}

/// What a query yields: one group for each matched entity.
///
/// A system reads and writes the groups, may spawn entities, and may queue
/// resource writes. Afterwards the result is dissolved into the changes and
/// the writes that the world then applies.
pub struct QueryResult {
    entities: Vec<ComponentGroup>,
    resource_writer: ResourceWriter,
    allocator: EntityAllocator,
}

impl QueryResult {
    /// The groups of the result, in the order in which they are visited.
    pub closed spec fn groups(&self) -> Seq<ComponentGroup> {
        self.entities@
    }

    /// The resource writes queued so far, oldest first.
    pub closed spec fn writes(&self) -> Seq<RequestView> {
        self.resource_writer@
    }

    /// Where the identifiers of spawned entities come from.
    pub closed spec fn allocator(&self) -> EntityAllocator {
        self.allocator
    }

    /// Whether `changes` is what the result dissolves into: the changes of its
    /// groups, group after group.
    pub open spec fn dissolves_to(&self, changes: Seq<ChangeView>) -> bool {
        exists|parts: Seq<Seq<ChangeView>>|
            {
                &&& #[trigger] parts.len() == self.groups().len()
                &&& forall|i: int| 0 <= i < parts.len() ==> self.groups()[i].emits(#[trigger] parts[i])
                &&& changes == parts.flatten()
            }
    }

    /// Takes the result apart into its changes and its queued resource writes.
    pub fn dissolve(self) -> (parts: (Vec<Change>, ResourceWriter))
        ensures
            self.dissolves_to(change_views(parts.0@)),
            parts.1@ == self.writes(),
    {
        let changes = self.get_changes();
        (changes, self.resource_writer)
    }

    /// The resource writes queued so far.
    pub fn get_resource_writes(&self) -> (writer: ResourceWriter)
        ensures
            writer@ == self.writes(),
    {
        self.resource_writer.clone()
    }

    /// The number that the next spawned entity gets.
    pub fn next_entity(&self) -> (next: u64)
        ensures
            next == self.allocator().next,
    {
        self.allocator.next
    }

    /// The changes the result dissolves into.
    pub fn get_changes(&self) -> (changes: Vec<Change>)
        ensures
            self.dissolves_to(change_views(changes@)),
    {
        let entities = &self.entities;
        let mut changes: Vec<Change> = Vec::new();
        let ghost mut emitted: Seq<Seq<ChangeView>> = Seq::empty();
        let mut i: usize = 0;
        assert(change_views(changes@) =~= emitted.flatten());
        while i < entities.len()
            invariant
                i <= entities.len(),
                emitted.len() == i,
                forall|j: int| 0 <= j < i ==> entities[j].emits(#[trigger] emitted[j]),
                change_views(changes@) == emitted.flatten(),
            decreases entities.len() - i,
        {
            let mut more = entities[i].get_changes();
            proof {
                let before = emitted;
                emitted = emitted.push(change_views(more@));
                before.lemma_flatten_push(change_views(more@));
                assert(change_views(changes@ + more@) =~= change_views(changes@) + change_views(
                    more@,
                ));
            }
            changes.append(&mut more);
            i += 1;
        }
        proof {
            assert(self.groups() == entities@);
        }
        changes
    }

    /// The groups of the result, to be visited and written to.
    pub fn iter(&mut self) -> (groups: &mut Vec<ComponentGroup>)
        ensures
            groups@ == old(self).groups(),
            final(self).groups() == final(groups)@,
            final(self).writes() == old(self).writes(),
            final(self).allocator() == old(self).allocator(),
    {
        &mut self.entities
    }

    /// The number of groups in the result.
    pub fn len(&self) -> (len: usize)
        ensures
            len == self.groups().len(),
    {
        self.entities.len()
    }

    /// Queues a resource write, to be applied after the changes of the stage.
    pub fn write_resource(&mut self, request: ResourceRequest)
        ensures
            final(self).writes() == old(self).writes().push(request@),
            final(self).groups() == old(self).groups(),
            final(self).allocator() == old(self).allocator(),
    {
        self.resource_writer.write_resource(request);
    }

    /// Starts a new entity, if the result has an identifier to give. Its
    /// components become `AddComponent` changes when the result is
    /// dissolved.
    pub fn add_entity(&mut self) -> (started: Option<EntityBuilder<'_, QueryResult>>)
        ensures
            started is Some <==> old(self).allocator().open(),
            started matches Some(builder) ==> {
                &&& builder.id == EntityId(old(self).allocator().next)
                &&& builder.components@ == Seq::<UntypedComponent>::empty()
                &&& builder.spawn_location.groups() == old(self).groups()
                &&& builder.spawn_location.writes() == old(self).writes()
                &&& builder.spawn_location.allocator().stride == old(self).allocator().stride
                &&& builder.spawn_location.allocator().next == old(self).allocator().following()
                &&& *final(self) == *final(builder.spawn_location)
            },
            started is None ==> *final(self) == *old(self),
    {
        if self.allocator.is_open() {
            let id = self.allocator.allocate();
            Some(EntityBuilder::new(self, id))
        } else {
            None
        }
    }
}

impl SpawnLocation for QueryResult {
    open spec fn ready(&self) -> bool {
        true
    }

    /// A spawn adds one group behind the others: that of the new entity, with
    /// all of its components written. A spawn without components adds nothing.
    open spec fn spawned(&self, components: Seq<ComponentView>, after: Self) -> bool {
        &&& after.writes() == self.writes()
        &&& after.allocator() == self.allocator()
        &&& components.len() == 0 ==> after.groups() == self.groups()
        &&& components.len() > 0 ==> {
            &&& after.groups().len() == self.groups().len() + 1
            &&& after.groups().drop_last() == self.groups()
            &&& after.groups().last().id() == components[0].id.0
            &&& after.groups().last().is_new()
            &&& after.groups().last().components() == grouped(components)
            &&& after.groups().last().dirty() == grouped(components).dom()
        }
    }

    fn spawn(&mut self, components: Vec<UntypedComponent>)
    {
        if components.len() > 0 {
            let id = components[0].entity_id();
            let group = ComponentGroup::spawned(id, components);
            self.entities.push(group);
            assert(self.groups().drop_last() =~= old(self).groups());
        }
    }
}

pub struct QueryResultBuilder {
    query_result: QueryResult,
}

impl QueryResultBuilder {
    /// The result as built so far.
    pub closed spec fn result(&self) -> QueryResult {
        self.query_result
    }

    /// A builder of a result without groups, which has no identifier to give
    /// until it is told where to take them from.
    pub fn new() -> (builder: Self)
        ensures
            builder.result().groups() == Seq::<ComponentGroup>::empty(),
            builder.result().writes() == Seq::<RequestView>::empty(),
            builder.result().allocator() == (EntityAllocator { next: 0, stride: 0 }),
    {
        QueryResultBuilder {
            query_result: QueryResult {
                entities: Vec::new(),
                resource_writer: ResourceWriter::new(),
                allocator: EntityAllocator::closed(),
            },
        }
    }

    /// Sets where the identifiers of spawned entities come from. That they
    /// are fresh in the world that the result is applied to is then for the
    /// caller to see to.
    pub fn with_allocator(self, allocator: EntityAllocator) -> (builder: Self)
        ensures
            builder.result().groups() == self.result().groups(),
            builder.result().writes() == self.result().writes(),
            builder.result().allocator() == allocator,
    {
        let mut builder = self;
        builder.query_result.allocator = allocator;
        builder
    }

    /// Adds the group of the matched entity `id`.
    pub fn with_entity(&mut self, components: Vec<UntypedComponent>, id: EntityId)
        ensures
            final(self).result().writes() == old(self).result().writes(),
            final(self).result().allocator() == old(self).result().allocator(),
            final(self).result().groups().len() == old(self).result().groups().len() + 1,
            final(self).result().groups().drop_last() == old(self).result().groups(),
            final(self).result().groups().last().id() == id,
            !final(self).result().groups().last().is_new(),
            final(self).result().groups().last().components() == grouped(
                crate::component::component_views(components@),
            ),
            final(self).result().groups().last().dirty() == Set::<ComponentTypeId>::empty(),
    {
        let group = ComponentGroup::new(id, components);
        self.query_result.entities.push(group);
        assert(self.result().groups().drop_last() =~= old(self).result().groups());
    }

    pub fn build(self) -> (result: QueryResult)
        ensures
            result == self.result(),
    {
        self.query_result
    }
}

impl Default for QueryResultBuilder {
    fn default() -> (builder: Self)
        ensures
            builder.result().groups() == Seq::<ComponentGroup>::empty(),
            builder.result().writes() == Seq::<RequestView>::empty(),
            builder.result().allocator() == (EntityAllocator { next: 0, stride: 0 }),
    {
        Self::new()
    }
}

} // verus!
