//! The world store: the components and the two indices that link them to
//! entities and to component types.

use vstd::prelude::*;
use crate::component::{
    component_views, instance_id_of, ComponentInstanceId, ComponentType, ComponentTypeId,
    ComponentView, UntypedComponent,
};
use crate::entity_id::EntityId;
use crate::entity_id::EntityAllocator;
use crate::query::{
    grouped, Change, ChangeType, ChangeView, ComponentGroup, Query, QueryResult,
    QueryResultBuilder,
};
use crate::resource::RequestView;
use crate::tables::{
    component_table_get, component_table_insert, component_table_new, component_table_remove,
    id_index_get, id_index_insert, id_index_len, id_index_new, id_index_remove, id_set_insert,
    id_set_intersection, id_set_par_intersection,
    id_set_len, id_set_new, id_set_remove, id_set_to_vec, ComponentTable, IdIndex, IdSet,
};

verus! {

/// The components after `change` is committed to `components`.
///
/// An `AddComponent` puts the component under its instance, in place of any
/// that was there. An `UpdateComponent` replaces the component of an instance
/// that is stored and does nothing for one that is not. A `RemoveComponent`
/// and an `UnloadComponent` take the instance out; for an instance that is not
/// stored they do nothing.
pub open spec fn committed(
    components: Map<ComponentInstanceId, ComponentView>,
    change: ChangeView,
) -> Map<ComponentInstanceId, ComponentView> {
    match change.kind {
        ChangeType::AddComponent => components.insert(change.component.id, change.component),
        ChangeType::UpdateComponent => if components.contains_key(change.component.id) {
            components.insert(change.component.id, change.component)
        } else {
            components
        },
        ChangeType::RemoveComponent | ChangeType::UnloadComponent => components.remove(
            change.component.id,
        ),
    }
}

/// The components after the changes are committed one after the other.
pub open spec fn committed_all(
    components: Map<ComponentInstanceId, ComponentView>,
    changes: Seq<ChangeView>,
) -> Map<ComponentInstanceId, ComponentView>
    decreases changes.len(),
{
    if changes.len() == 0 {
        components
    } else {
        committed(committed_all(components, changes.drop_last()), changes.last())
    }
}

/// The key of an instance in the component table.
pub open spec fn key_of(id: ComponentInstanceId) -> (u64, u64) {
    (id.0.0, id.1.0)
}

/// Whether the index files `member` under `key`.
spec fn files(index: IdIndex, key: u64, member: u64) -> bool {
    index@.contains_key(key) && index@[key]@.contains(member)
}

/// Whether every set of the index is finite and holds something.
spec fn no_empty_entry(index: IdIndex) -> bool {
    &&& index@.dom().finite()
    &&& forall|key: u64| #[trigger]
        index@.contains_key(key) ==> index@[key]@.finite() && index@[key]@.len() > 0
}

/// Files `member` under `key`, with a new entry if there is none.
fn index_add(index: &mut IdIndex, key: u64, member: u64)
    requires
        no_empty_entry(*old(index)),
    ensures
        no_empty_entry(*final(index)),
        forall|k: u64, m: u64| #[trigger]
            files(*final(index), k, m) == (files(*old(index), k, m) || (k == key && m == member)),
        forall|k: u64| #[trigger]
            final(index)@.contains_key(k) == (old(index)@.contains_key(k) || k == key),
{
    let mut set = match id_index_remove(index, key) {
        Some(set) => set,
        None => id_set_new(),
    };
    id_set_insert(&mut set, member);
    id_index_insert(index, key, set);
    proof {
        assert(set@.contains(member));
        assert(set@.len() > 0) by {
            if set@.len() == 0 {
                set@.lemma_len0_is_empty();
            }
        }
    }
}

/// Takes `member` out from under `key`, and the entry with it if nothing is
/// left under it.
fn index_remove(index: &mut IdIndex, key: u64, member: u64)
    requires
        no_empty_entry(*old(index)),
    ensures
        no_empty_entry(*final(index)),
        forall|k: u64, m: u64| #[trigger]
            files(*final(index), k, m) == (files(*old(index), k, m) && !(k == key && m == member)),
        forall|k: u64| #[trigger]
            final(index)@.contains_key(k) ==> old(index)@.contains_key(k),
        forall|k: u64| k != key ==> #[trigger]
            final(index)@.contains_key(k) == old(index)@.contains_key(k),
{
    match id_index_remove(index, key) {
        Some(set) => {
            let mut set = set;
            id_set_remove(&mut set, member);
            if id_set_len(&set) > 0 {
                id_index_insert(index, key, set);
            } else {
                proof {
                    assert(set@.len() == 0);
                    set@.lemma_len0_is_empty();
                    assert(forall|m: u64| !set@.contains(m));
                }
            }
        },
        None => {},
    }
}

/// Whether the set is there and holds `member`.
pub(crate) open spec fn holds(set: Option<&IdSet>, member: u64) -> bool {
    set matches Some(found) && found@.contains(member)
}

/// What a set holds: nothing if it is not there.
pub(crate) open spec fn held(set: Option<&IdSet>) -> Set<u64> {
    match set {
        Some(found) => found@,
        None => Set::empty(),
    }
}

/// What every one of the sets holds, each member once. A set that is not
/// there holds nothing. The first two sets are intersected first, and then
/// every further set with what is left.
pub(crate) fn held_by_all(sets: &Vec<Option<&IdSet>>) -> (members: Vec<u64>)
    requires
        sets.len() > 0,
    ensures
        members@.no_duplicates(),
        forall|member: u64|
            members@.contains(member) <==> forall|j: int|
                0 <= j < sets.len() ==> holds(#[trigger] sets[j], member),
{
    proof {
        assert forall|set: Option<&IdSet>, member: u64|
            held(set).contains(member) == holds(set, member) by {}
    }
    if sets.len() == 1 {
        let members = match sets[0] {
            Some(set) => id_set_to_vec(set),
            None => Vec::new(),
        };
        proof {
            assert forall|member: u64| members@.contains(member) <==> forall|j: int|
                0 <= j < sets.len() ==> holds(#[trigger] sets[j], member) by {
                assert(members@.contains(member) == held(sets[0]).contains(member));
                if holds(sets[0], member) {
                    assert forall|j: int| 0 <= j < sets.len() implies holds(
                        #[trigger] sets[j],
                        member,
                    ) by {
                        assert(j == 0);
                    }
                }
            }
        }
        members
    } else {
        let mut both = match (sets[0], sets[1]) {
            (Some(left), Some(right)) => id_set_intersection(left, right),
            _ => id_set_new(),
        };
        proof {
            assert(both@ =~= held(sets[0]).intersect(held(sets[1])));
            assert forall|member: u64| both@.contains(member) <==> forall|j: int|
                0 <= j < 2 ==> holds(#[trigger] sets[j], member) by {
                if holds(sets[0], member) && holds(sets[1], member) {
                    assert forall|j: int| 0 <= j < 2 implies holds(#[trigger] sets[j], member) by {
                        assert(j == 0 || j == 1);
                    }
                }
            }
        }
        let mut i: usize = 2;
        while i < sets.len()
            invariant
                2 <= i <= sets.len(),
                forall|set: Option<&IdSet>, member: u64|
                    held(set).contains(member) == holds(set, member),
                forall|member: u64|
                    both@.contains(member) <==> forall|j: int|
                        0 <= j < i ==> holds(#[trigger] sets[j], member),
            decreases sets.len() - i,
        {
            let ghost before = both;
            both = match sets[i] {
                Some(set) => id_set_par_intersection(&both, set),
                None => id_set_new(),
            };
            proof {
                assert(both@ =~= before@.intersect(held(sets[i as int])));
                assert forall|member: u64| both@.contains(member) <==> forall|j: int|
                    0 <= j < i + 1 ==> holds(#[trigger] sets[j], member) by {
                    if both@.contains(member) {
                        assert(before@.contains(member));
                    }
                    if forall|j: int| 0 <= j < i + 1 ==> holds(#[trigger] sets[j], member) {
                        assert(holds(sets[i as int], member));
                        assert(before@.contains(member));
                    }
                }
            }
            i += 1;
        }
        let members = id_set_to_vec(&both);
        proof {
            assert forall|member: u64| members@.contains(member) <==> forall|j: int|
                0 <= j < sets.len() ==> holds(#[trigger] sets[j], member) by {
                assert(members@.contains(member) == both@.contains(member));
            }
        }
        members
    }
}

/// What the index files under each of `keys`, each member once.
fn filed_under_all(index: &IdIndex, keys: &Vec<u64>) -> (members: Vec<u64>)
    requires
        keys.len() > 0,
    ensures
        members@.no_duplicates(),
        forall|member: u64|
            members@.contains(member) <==> forall|j: int|
                0 <= j < keys.len() ==> files(*index, #[trigger] keys[j], member),
{
    let mut sets: Vec<Option<&IdSet>> = Vec::new();
    let mut i: usize = 0;
    while i < keys.len()
        invariant
            i <= keys.len(),
            sets.len() == i,
            forall|j: int, member: u64|
                0 <= j < i ==> #[trigger] holds(sets[j], member) == files(*index, keys[j], member),
        decreases keys.len() - i,
    {
        sets.push(id_index_get(index, keys[i]));
        i += 1;
    }
    let members = held_by_all(&sets);
    proof {
        assert forall|member: u64| members@.contains(member) <==> forall|j: int|
            0 <= j < keys.len() ==> files(*index, #[trigger] keys[j], member) by {
            if members@.contains(member) {
                assert forall|j: int| 0 <= j < keys.len() implies files(
                    *index,
                    #[trigger] keys[j],
                    member,
                ) by {
                    assert(holds(sets[j], member));
                }
            }
            if forall|j: int| 0 <= j < keys.len() ==> files(*index, #[trigger] keys[j], member) {
                assert forall|j: int| 0 <= j < sets.len() implies holds(
                    #[trigger] sets[j],
                    member,
                ) by {
                    assert(files(*index, keys[j], member));
                }
            }
        }
    }
    members
}

/// The store of the world.
///
/// Three tables are kept in step: the components by instance, the component
/// types of each entity, and the entities of each component type. An entity
/// is in the store exactly as long as it has a component.
pub struct Store {
    components: ComponentTable,
    entities: IdIndex,
    component_types: IdIndex,
    ceiling: u64,
}

impl View for Store {
    type V = Map<ComponentInstanceId, ComponentView>;

    /// A store is what it holds: its components by instance. In a
    /// well-formed store the two indices follow from them.
    open spec fn view(&self) -> Map<ComponentInstanceId, ComponentView> {
        self.components()
    }
}

impl Store {
    /// The components, by instance.
    pub closed spec fn components(&self) -> Map<ComponentInstanceId, ComponentView> {
        Map::new(
            |id: ComponentInstanceId| self.components@.contains_key(key_of(id)),
            |id: ComponentInstanceId| self.components@[key_of(id)]@,
        )
    }

    /// The component instances of each entity.
    pub closed spec fn entities(&self) -> Map<EntityId, Set<ComponentInstanceId>> {
        Map::new(
            |entity: EntityId| self.entities@.contains_key(entity.0),
            |entity: EntityId|
                Set::new(|id: ComponentInstanceId| id.0 == entity && files(self.entities, id.0.0, id.1.0)),
        )
    }

    /// The entities of each component type.
    pub closed spec fn component_types(&self) -> Map<ComponentTypeId, Set<EntityId>> {
        Map::new(
            |type_id: ComponentTypeId| self.component_types@.contains_key(type_id.0),
            |type_id: ComponentTypeId|
                Set::new(|entity: EntityId| files(self.component_types, type_id.0, entity.0)),
        )
    }

    /// Whether the component table holds the instance.
    spec fn has(&self, entity: u64, type_id: u64) -> bool {
        self.components@.contains_key((entity, type_id))
    }

    /// A number above the number of every entity that was ever stored, or
    /// the largest number once an entity with that number was stored.
    pub closed spec fn ceiling(&self) -> u64 {
        self.ceiling
    }

    /// Whether the number of every stored entity lies below the ceiling,
    /// unless the ceiling is the largest number.
    spec fn below_ceiling(&self) -> bool {
        forall|entity: u64, type_id: u64| #[trigger]
            self.has(entity, type_id) ==> entity < self.ceiling || self.ceiling == u64::MAX
    }

    /// The invariant of the store: the three tables agree, no index entry is
    /// empty, every component is stored under its own instance, and the
    /// entities lie below the ceiling.
    pub closed spec fn wf(&self) -> bool {
        &&& self.below_ceiling()
        &&& self.components@.dom().finite()
        &&& no_empty_entry(self.entities)
        &&& no_empty_entry(self.component_types)
        &&& forall|entity: u64, type_id: u64| #[trigger]
            self.has(entity, type_id) ==> self.components@[(entity, type_id)]@.id
                == ComponentInstanceId(EntityId(entity), ComponentTypeId(type_id))
        &&& forall|entity: u64, type_id: u64|
            #![trigger self.has(entity, type_id)]
            #![trigger files(self.entities, entity, type_id)]
            self.has(entity, type_id) == files(self.entities, entity, type_id)
        &&& forall|entity: u64, type_id: u64|
            #![trigger self.has(entity, type_id)]
            #![trigger files(self.component_types, type_id, entity)]
            self.has(entity, type_id) == files(self.component_types, type_id, entity)
    }

    /// A store without components.
    pub fn new() -> (store: Store)
        ensures
            store.wf(),
            store@ == Map::<ComponentInstanceId, ComponentView>::empty(),
            store.ceiling() == 0,
    {
        let store = Store {
            components: component_table_new(),
            entities: id_index_new(),
            component_types: id_index_new(),
            ceiling: 0,
        };
        assert(store@ =~= Map::<ComponentInstanceId, ComponentView>::empty());
        store
    }

    /// The tables agree after one instance was changed in all three alike.
    ///
    /// `stored` says whether the instance `(entity, type_id)` is stored
    /// afterwards. Every other instance is in each table exactly if it was
    /// there before, and with the component it had.
    proof fn lemma_tables_agree(&self, after: Store, entity: u64, type_id: u64, stored: bool)
        requires
            self.wf(),
            after.below_ceiling(),
            after.components@.dom().finite(),
            no_empty_entry(after.entities),
            no_empty_entry(after.component_types),
            after.has(entity, type_id) == stored,
            stored ==> after.components@[(entity, type_id)]@.id == ComponentInstanceId(
                EntityId(entity),
                ComponentTypeId(type_id),
            ),
            forall|e: u64, t: u64|
                (e, t) != (entity, type_id) ==> #[trigger] after.has(e, t) == self.has(e, t) && (
                self.has(e, t) ==> after.components@[(e, t)] == self.components@[(e, t)]),
            forall|e: u64, t: u64| #[trigger]
                files(after.entities, e, t) == if (e, t) == (entity, type_id) {
                    stored
                } else {
                    files(self.entities, e, t)
                },
            forall|t: u64, e: u64| #[trigger]
                files(after.component_types, t, e) == if (e, t) == (entity, type_id) {
                    stored
                } else {
                    files(self.component_types, t, e)
                },
        ensures
            after.wf(),
    {
        assert forall|e: u64, t: u64| #[trigger] after.has(e, t) implies after.components@[(
            e,
            t,
        )]@.id == ComponentInstanceId(EntityId(e), ComponentTypeId(t)) by {
            if (e, t) != (entity, type_id) {
                assert(self.has(e, t));
            }
        }
        assert forall|e: u64, t: u64|
            #![trigger after.has(e, t)]
            #![trigger files(after.entities, e, t)]
            after.has(e, t) == files(after.entities, e, t) by {
            assert(self.has(e, t) == files(self.entities, e, t));
        }
        assert forall|e: u64, t: u64|
            #![trigger after.has(e, t)]
            #![trigger files(after.component_types, t, e)]
            after.has(e, t) == files(after.component_types, t, e) by {
            assert(self.has(e, t) == files(self.component_types, t, e));
        }
    }

    /// Commits one change to the three tables.
    pub fn commit(&mut self, change: Change)
        requires
            old(self).wf(),
        ensures
            final(self).wf(),
            final(self)@ == committed(old(self)@, change@),
            final(self).ceiling() >= old(self).ceiling(),
    {
        let Change(component, kind) = change;
        let id = component.id();
        let entity = id.0.0;
        let type_id = id.1.0;
        let ghost view = component@;
        assert(key_of(id) == (entity, type_id));
        proof {
            assert(old(self).has(entity, type_id) == files(old(self).entities, entity, type_id));
            assert(old(self).has(entity, type_id) == files(
                old(self).component_types,
                type_id,
                entity,
            ));
        }
        match kind {
            ChangeType::AddComponent => {
                component_table_insert(&mut self.components, (entity, type_id), component);
                index_add(&mut self.entities, entity, type_id);
                index_add(&mut self.component_types, type_id, entity);
                if entity >= self.ceiling {
                    self.ceiling = entity.saturating_add(1);
                }
                proof {
                    assert forall|e: u64, t: u64| #[trigger] self.has(e, t) implies e
                        < self.ceiling || self.ceiling == u64::MAX by {
                        if (e, t) != (entity, type_id) {
                            assert(old(self).has(e, t));
                        }
                    }
                    old(self).lemma_tables_agree(*self, entity, type_id, true);
                    assert(self@ =~= old(self)@.insert(view.id, view));
                }
            },
            ChangeType::UpdateComponent => {
                if component_table_get(&self.components, (entity, type_id)).is_some() {
                    component_table_insert(&mut self.components, (entity, type_id), component);
                    proof {
                        assert(old(self).has(entity, type_id));
                        assert(self.components@.dom() =~= old(self).components@.dom());
                        assert forall|e: u64, t: u64| #[trigger] self.has(e, t) implies e
                            < self.ceiling || self.ceiling == u64::MAX by {
                            assert(old(self).has(e, t));
                        }
                        old(self).lemma_tables_agree(*self, entity, type_id, true);
                        assert(self@ =~= old(self)@.insert(view.id, view));
                    }
                } else {
                    proof {
                        assert(!old(self)@.contains_key(view.id));
                    }
                }
            },
            ChangeType::RemoveComponent | ChangeType::UnloadComponent => {
                component_table_remove(&mut self.components, (entity, type_id));
                index_remove(&mut self.entities, entity, type_id);
                index_remove(&mut self.component_types, type_id, entity);
                proof {
                    assert forall|e: u64, t: u64| #[trigger] self.has(e, t) implies e
                        < self.ceiling || self.ceiling == u64::MAX by {
                        assert(old(self).has(e, t));
                    }
                    old(self).lemma_tables_agree(*self, entity, type_id, false);
                    assert(self@ =~= old(self)@.remove(view.id));
                }
            },
        }
    }

    /// The ceiling of the store.
    pub fn first_above(&self) -> (ceiling: u64)
        ensures
            ceiling == self.ceiling(),
    {
        self.ceiling
    }

    /// Every entity of a well-formed store has a number below the ceiling,
    /// unless the ceiling is the largest number.
    pub proof fn lemma_below_ceiling(&self)
        requires
            self.wf(),
        ensures
            forall|entity: EntityId| #[trigger]
                owners(self@).contains(entity) ==> entity.0 < self.ceiling() || self.ceiling()
                    == u64::MAX,
    {
        assert forall|entity: EntityId| #[trigger] owners(self@).contains(entity) implies entity.0
            < self.ceiling() || self.ceiling() == u64::MAX by {
            let id = choose|id: ComponentInstanceId| self@.contains_key(id) && id.0 == entity;
            assert(self.has(id.0.0, id.1.0));
        }
    }

    /// The component stored under the instance `id`.
    pub fn get_component_by_instance_id(&self, id: ComponentInstanceId) -> (found: Option<
        &UntypedComponent,
    >)
        ensures
            found is Some <==> self@.contains_key(id),
            found matches Some(component) ==> component@ == self@[id],
    {
        assert(key_of(id) == (id.0.0, id.1.0));
        component_table_get(&self.components, (id.0.0, id.1.0))
    }

    /// The component of type `T` on `entity`, decoded: `None` if the entity is
    /// not in the store, has no such component, or the component does not
    /// decode.
    pub fn get_component<T: ComponentType>(&self, entity: EntityId) -> (value: Option<T>)
        ensures
            value is Some <==> self@.contains_key(instance_id_of::<T>(entity))
                && self@[instance_id_of::<T>(entity)].holds::<T>(),
            value matches Some(v) ==> v.encoding() == self@[instance_id_of::<T>(entity)].data,
    {
        match self.get_component_by_instance_id(ComponentInstanceId::new::<T>(entity)) {
            Some(component) => component.get::<T>(),
            None => None,
        }
    }

    /// The components of one entity, each once.
    fn row(&self, entity: u64) -> (row: Vec<UntypedComponent>)
        requires
            self.wf(),
        ensures
            is_row(self@, EntityId(entity), component_views(row@)),
    {
        let mut row: Vec<UntypedComponent> = Vec::new();
        let types = match id_index_get(&self.entities, entity) {
            Some(set) => id_set_to_vec(set),
            None => Vec::new(),
        };
        proof {
            assert forall|t: u64| types@.contains(t) == self.has(entity, t) by {
                assert(self.has(entity, t) == files(self.entities, entity, t));
            }
        }
        let mut i: usize = 0;
        while i < types.len()
            invariant
                i <= types.len(),
                self.wf(),
                types@.no_duplicates(),
                forall|t: u64| types@.contains(t) == self.has(entity, t),
                row.len() == i,
                forall|j: int|
                    0 <= j < i ==> (#[trigger] row[j])@ == self.components@[(entity, types[j])]@,
            decreases types.len() - i,
        {
            let type_id = types[i];
            assert(types@.contains(type_id));
            assert(self.has(entity, type_id));
            match component_table_get(&self.components, (entity, type_id)) {
                Some(component) => {
                    row.push(component.clone());
                },
                None => {
                    assert(false);
                },
            }
            i += 1;
        }
        proof {
            let views = component_views(row@);
            assert forall|j: int| 0 <= j < views.len() implies (#[trigger] views[j]).id
                == ComponentInstanceId(EntityId(entity), ComponentTypeId(types[j])) by {
                assert(types@.contains(types[j]));
                assert(self.has(entity, types[j]));
            }
            assert forall|j: int| 0 <= j < views.len() implies {
                &&& (#[trigger] views[j]).id.0 == EntityId(entity)
                &&& self@.contains_key(views[j].id)
                &&& self@[views[j].id] == views[j]
            } by {
                assert(types@.contains(types[j]));
                assert(self.has(entity, types[j]));
                assert(key_of(views[j].id) == (entity, types[j]));
            }
            assert forall|id: ComponentInstanceId|
                self@.contains_key(id) && id.0 == EntityId(entity) implies exists|j: int|
                0 <= j < views.len() && (#[trigger] views[j]).id == id by {
                assert(self.has(entity, id.1.0));
                assert(types@.contains(id.1.0));
                let j = choose|j: int| 0 <= j < types.len() && types[j] == id.1.0;
                assert(views[j].id == id);
            }
        }
        row
    }

    /// All components of `entity`, each once and in no particular order;
    /// `None` if the entity is not in the store.
    pub fn get_all_components_of_entity(&self, entity: EntityId) -> (found: Option<
        Vec<UntypedComponent>,
    >)
        requires
            self.wf(),
        ensures
            found is Some <==> self.entities().contains_key(entity),
            found matches Some(row) ==> is_row(self@, entity, component_views(row@)),
    {
        if id_index_get(&self.entities, entity.0).is_some() {
            Some(self.row(entity.0))
        } else {
            None
        }
    }

    /// Whether the entity is in the store: whether it owns a component.
    pub fn has_entity(&self, entity: EntityId) -> (present: bool)
        requires
            self.wf(),
        ensures
            present == self.entities().contains_key(entity),
            present == owners(self@).contains(entity),
    {
        proof {
            self.lemma_index_keys(entity, ComponentTypeId(0));
        }
        id_index_get(&self.entities, entity.0).is_some()
    }

    /// The number of entities in the store: the number of entities that own
    /// a component.
    pub fn number_of_entities(&self) -> (count: usize)
        requires
            self.wf(),
        ensures
            count == self.entities().dom().len(),
            count == owners(self@).len(),
    {
        proof {
            self.lemma_index_invariants();
            self.lemma_entity_numbers();
        }
        id_index_len(&self.entities)
    }

    /// The index by entity has as many keys as there are entities in it.
    proof fn lemma_entity_numbers(&self)
        requires
            self.wf(),
        ensures
            self.entities().dom().len() == self.entities@.dom().len(),
            self.entities().dom().finite(),
    {
        let numbers = self.entities@.dom();
        let ids = self.entities().dom();
        assert(ids =~= numbers.map(|number: u64| EntityId(number))) by {
            assert forall|id: EntityId| ids.contains(id) implies numbers.map(
                |number: u64| EntityId(number),
            ).contains(id) by {
                assert(numbers.contains(id.0));
                assert(EntityId(id.0) == id);
            }
        }
        vstd::set_lib::lemma_map_size(numbers, ids, |number: u64| EntityId(number));
        numbers.lemma_map_finite(|number: u64| EntityId(number));
    }
}

/// The entities that own a component: those that some stored instance
/// belongs to.
pub open spec fn owners(components: Map<ComponentInstanceId, ComponentView>) -> Set<EntityId> {
    Set::new(
        |entity: EntityId|
            exists|id: ComponentInstanceId| components.contains_key(id) && id.0 == entity,
    )
}

/// The components of one entity, by type.
pub open spec fn components_of(
    components: Map<ComponentInstanceId, ComponentView>,
    entity: EntityId,
) -> Map<ComponentTypeId, ComponentView> {
    Map::new(
        |t: ComponentTypeId| components.contains_key(ComponentInstanceId(entity, t)),
        |t: ComponentTypeId| components[ComponentInstanceId(entity, t)],
    )
}

/// Whether `row` lists the components of `entity`: each of them once, and
/// nothing else.
pub open spec fn is_row(
    components: Map<ComponentInstanceId, ComponentView>,
    entity: EntityId,
    row: Seq<ComponentView>,
) -> bool {
    &&& forall|i: int|
        0 <= i < row.len() ==> {
            &&& (#[trigger] row[i]).id.0 == entity
            &&& components.contains_key(row[i].id)
            &&& components[row[i].id] == row[i]
        }
    &&& forall|i: int, j: int|
        0 <= i < row.len() && 0 <= j < row.len() && i != j ==> (#[trigger] row[i]).id != (
        #[trigger] row[j]).id
    &&& forall|id: ComponentInstanceId|
        components.contains_key(id) && id.0 == entity ==> exists|i: int|
            0 <= i < row.len() && (#[trigger] row[i]).id == id
}

/// Whether `entity` matches a query for `types`: the query asks for at least
/// one type, and the entity carries a component of each type asked for.
pub open spec fn is_match(
    components: Map<ComponentInstanceId, ComponentView>,
    types: Set<ComponentTypeId>,
    entity: EntityId,
) -> bool {
    &&& exists|t: ComponentTypeId| types.contains(t)
    &&& forall|t: ComponentTypeId|
        #[trigger] types.contains(t) ==> components.contains_key(ComponentInstanceId(entity, t))
}

/// Whether `groups` answers a query for `types`: one group for each matching
/// entity and none besides, each with all components of its entity, none of
/// them written.
pub open spec fn answers(
    components: Map<ComponentInstanceId, ComponentView>,
    types: Set<ComponentTypeId>,
    groups: Seq<ComponentGroup>,
) -> bool {
    &&& forall|i: int, j: int|
        0 <= i < groups.len() && 0 <= j < groups.len() && i != j ==> (#[trigger] groups[i]).id() != (
        #[trigger] groups[j]).id()
    &&& forall|i: int|
        0 <= i < groups.len() ==> {
            &&& is_match(components, types, (#[trigger] groups[i]).id())
            &&& !groups[i].is_new()
            &&& groups[i].dirty() == Set::<ComponentTypeId>::empty()
            &&& groups[i].components() == components_of(components, groups[i].id())
        }
    &&& forall|entity: EntityId|
        is_match(components, types, entity) ==> exists|i: int|
            0 <= i < groups.len() && (#[trigger] groups[i]).id() == entity
}

/// A row files into the components of its entity by type.
pub proof fn lemma_row_grouped(
    components: Map<ComponentInstanceId, ComponentView>,
    entity: EntityId,
    row: Seq<ComponentView>,
)
    requires
        is_row(components, entity, row),
        forall|id: ComponentInstanceId| #[trigger]
            components.contains_key(id) ==> components[id].id == id,
    ensures
        grouped(row) == components_of(components, entity),
    decreases row.len(),
{
    lemma_grouped_members(row);
    assert forall|t: ComponentTypeId| #[trigger]
        grouped(row).contains_key(t) == components_of(components, entity).contains_key(t) by {
        if grouped(row).contains_key(t) {
            let i = choose|i: int| 0 <= i < row.len() && (#[trigger] row[i]).id.1 == t;
            assert(row[i].id == ComponentInstanceId(entity, t));
        }
        if components_of(components, entity).contains_key(t) {
            let id = ComponentInstanceId(entity, t);
            let i = choose|i: int| 0 <= i < row.len() && (#[trigger] row[i]).id == id;
            assert(row[i].id.1 == t);
        }
    }
    assert forall|t: ComponentTypeId| #[trigger] grouped(row).contains_key(t) implies grouped(
        row,
    )[t] == components_of(components, entity)[t] by {
        let i = choose|i: int|
            0 <= i < row.len() && (#[trigger] row[i]).id.1 == t && grouped(row)[t] == row[i];
        assert(row[i].id == ComponentInstanceId(entity, t));
    }
    assert(grouped(row) =~= components_of(components, entity));
}

/// What filing by type keeps: a type has a component exactly if the sequence
/// holds one of that type, and the component kept is one of them.
pub proof fn lemma_grouped_members(row: Seq<ComponentView>)
    ensures
        forall|t: ComponentTypeId| #[trigger]
            grouped(row).contains_key(t) <==> exists|i: int|
                0 <= i < row.len() && (#[trigger] row[i]).id.1 == t,
        forall|t: ComponentTypeId| #[trigger]
            grouped(row).contains_key(t) ==> exists|i: int|
                0 <= i < row.len() && (#[trigger] row[i]).id.1 == t && grouped(row)[t] == row[i],
    decreases row.len(),
{
    if row.len() > 0 {
        let front = row.drop_last();
        lemma_grouped_members(front);
        assert forall|t: ComponentTypeId| #[trigger] grouped(row).contains_key(t) implies exists|
            i: int,
        |
            0 <= i < row.len() && (#[trigger] row[i]).id.1 == t && grouped(row)[t] == row[i] by {
            if t == row.last().id.1 {
                assert(row[row.len() - 1].id.1 == t);
            } else {
                assert(grouped(front).contains_key(t));
                let i = choose|i: int|
                    0 <= i < front.len() && (#[trigger] front[i]).id.1 == t && grouped(front)[t]
                        == front[i];
                assert(row[i] == front[i]);
            }
        }
        assert forall|t: ComponentTypeId|
            (exists|i: int| 0 <= i < row.len() && (#[trigger] row[i]).id.1 == t) implies #[trigger]
            grouped(row).contains_key(t) by {
            let i = choose|i: int| 0 <= i < row.len() && (#[trigger] row[i]).id.1 == t;
            if i < row.len() - 1 {
                assert(front[i].id.1 == t);
            }
        }
    }
}

impl Store {
    /// The entities that carry a component of each of `types`, each once.
    fn candidates(&self, types: &Vec<u64>) -> (entities: Vec<u64>)
        requires
            self.wf(),
            types.len() > 0,
        ensures
            entities@.no_duplicates(),
            forall|entity: u64|
                entities@.contains(entity) <==> forall|j: int|
                    0 <= j < types.len() ==> self.has(entity, #[trigger] types[j]),
    {
        let entities = filed_under_all(&self.component_types, types);
        proof {
            assert forall|entity: u64| entities@.contains(entity) <==> forall|j: int|
                0 <= j < types.len() ==> self.has(entity, #[trigger] types[j]) by {
                if entities@.contains(entity) {
                    assert forall|j: int| 0 <= j < types.len() implies self.has(
                        entity,
                        #[trigger] types[j],
                    ) by {
                        assert(files(self.component_types, types[j], entity));
                    }
                }
                if forall|j: int| 0 <= j < types.len() ==> self.has(entity, #[trigger] types[j]) {
                    assert forall|j: int| 0 <= j < types.len() implies files(
                        self.component_types,
                        #[trigger] types[j],
                        entity,
                    ) by {
                        assert(self.has(entity, types[j]));
                    }
                }
            }
        }
        entities
    }

    /// Evaluates a query.
    ///
    /// A query for no type matches nothing. A query for some types matches the
    /// entities that carry a component of each of them; every matched entity
    /// becomes a group with all of its components, not only those asked for.
    /// The order of the groups is not specified. Entities spawned through the
    /// result take their identifiers from `allocator`.
    pub fn query(&self, query: &Query, allocator: EntityAllocator) -> (result: QueryResult)
        requires
            self.wf(),
        ensures
            answers(self@, query.types(), result.groups()),
            result.writes() == Seq::<RequestView>::empty(),
            result.allocator() == allocator,
    {
        let mut builder = QueryResultBuilder::new().with_allocator(allocator);
        let types = id_set_to_vec(&query.components);
        if types.len() == 0 {
            proof {
                assert forall|entity: EntityId| !is_match(self@, query.types(), entity) by {
                    if exists|t: ComponentTypeId| query.types().contains(t) {
                        let t = choose|t: ComponentTypeId| query.types().contains(t);
                        assert(types@.contains(t.0));
                    }
                }
            }
            return builder.build();
        }
        let entities = self.candidates(&types);
        proof {
            assert forall|entity: EntityId|
                entities@.contains(entity.0) == is_match(self@, query.types(), entity) by {
                if entities@.contains(entity.0) {
                    assert(types@.contains(types[0]));
                    assert(query.types().contains(ComponentTypeId(types[0])));
                    assert forall|t: ComponentTypeId| #[trigger]
                        query.types().contains(t) implies self@.contains_key(
                        ComponentInstanceId(entity, t),
                    ) by {
                        assert(types@.contains(t.0));
                        let j = choose|j: int| 0 <= j < types.len() && types[j] == t.0;
                        assert(self.has(entity.0, types[j]));
                        assert(key_of(ComponentInstanceId(entity, t)) == (entity.0, t.0));
                    }
                }
                if is_match(self@, query.types(), entity) {
                    assert forall|j: int| 0 <= j < types.len() implies self.has(
                        entity.0,
                        #[trigger] types[j],
                    ) by {
                        let t = ComponentTypeId(types[j]);
                        assert(types@.contains(types[j]));
                        assert(query.types().contains(t));
                        assert(self@.contains_key(ComponentInstanceId(entity, t)));
                        assert(key_of(ComponentInstanceId(entity, t)) == (entity.0, t.0));
                    }
                }
            }
            assert forall|id: ComponentInstanceId| #[trigger] self@.contains_key(id) implies self@[id].id
                == id by {
                assert(self.has(id.0.0, id.1.0));
            }
        }
        let mut i: usize = 0;
        while i < entities.len()
            invariant
                i <= entities.len(),
                self.wf(),
                entities@.no_duplicates(),
                forall|entity: EntityId|
                    entities@.contains(entity.0) == is_match(self@, query.types(), entity),
                forall|id: ComponentInstanceId| #[trigger]
                    self@.contains_key(id) ==> self@[id].id == id,
                builder.result().writes() == Seq::<RequestView>::empty(),
                builder.result().allocator() == allocator,
                builder.result().groups().len() == i,
                forall|j: int|
                    0 <= j < i ==> {
                        &&& (#[trigger] builder.result().groups()[j]).id() == EntityId(entities[j])
                        &&& !builder.result().groups()[j].is_new()
                        &&& builder.result().groups()[j].dirty() == Set::<ComponentTypeId>::empty()
                        &&& builder.result().groups()[j].components() == components_of(
                            self@,
                            EntityId(entities[j]),
                        )
                    },
            decreases entities.len() - i,
        {
            let entity = entities[i];
            let row = self.row(entity);
            let ghost before = builder.result().groups();
            proof {
                lemma_row_grouped(self@, EntityId(entity), component_views(row@));
            }
            builder.with_entity(row, EntityId(entity));
            proof {
                let after = builder.result().groups();
                assert forall|j: int| 0 <= j < i implies after[j] == before[j] by {
                    assert(after.drop_last()[j] == after[j]);
                }
                assert(after[i as int] == after.last());
            }
            i += 1;
        }
        let result = builder.build();
        proof {
            let groups = result.groups();
            assert forall|j: int| 0 <= j < groups.len() implies is_match(
                self@,
                query.types(),
                (#[trigger] groups[j]).id(),
            ) by {
                assert(entities@.contains(entities[j]));
            }
            assert forall|entity: EntityId| is_match(self@, query.types(), entity) implies exists|
                j: int,
            |
                0 <= j < groups.len() && (#[trigger] groups[j]).id() == entity by {
                assert(entities@.contains(entity.0));
                let j = choose|j: int| 0 <= j < entities.len() && entities[j] == entity.0;
                assert(groups[j].id() == entity);
            }
        }
        result
    }
}

impl Store {
    /// The invariants of the indices, which hold of every well-formed store.
    ///
    /// A component is stored exactly if its entity lists its instance, and
    /// exactly if its type lists its entity. No entity is without an
    /// instance, no type without an entity, and every component is stored
    /// under its own instance.
    pub proof fn lemma_index_invariants(&self)
        requires
            self.wf(),
        ensures
            forall|id: ComponentInstanceId| #[trigger]
                self.components().contains_key(id) <==> self.entities().contains_key(id.0)
                    && self.entities()[id.0].contains(id),
            forall|id: ComponentInstanceId| #[trigger]
                self.components().contains_key(id) <==> self.component_types().contains_key(id.1)
                    && self.component_types()[id.1].contains(id.0),
            forall|entity: EntityId| #[trigger]
                self.entities().contains_key(entity) ==> exists|id: ComponentInstanceId|
                    self.entities()[entity].contains(id),
            forall|type_id: ComponentTypeId| #[trigger]
                self.component_types().contains_key(type_id) ==> exists|entity: EntityId|
                    self.component_types()[type_id].contains(entity),
            forall|id: ComponentInstanceId| #[trigger]
                self.components().contains_key(id) ==> self.components()[id].id == id,
            forall|entity: EntityId, id: ComponentInstanceId|
                self.entities().contains_key(entity) && #[trigger] self.entities()[entity].contains(
                    id,
                ) ==> id.0 == entity && self.components().contains_key(id),
            forall|type_id: ComponentTypeId, entity: EntityId|
                self.component_types().contains_key(type_id)
                    && #[trigger] self.component_types()[type_id].contains(entity)
                    ==> self.components().contains_key(ComponentInstanceId(entity, type_id)),
            self.entities().dom() == owners(self.components()),
            self.entities().dom().finite(),
    {
        assert forall|entity: EntityId, id: ComponentInstanceId|
            self.entities().contains_key(entity) && #[trigger] self.entities()[entity].contains(
                id,
            ) implies id.0 == entity && self.components().contains_key(id) by {
            assert(self.has(id.0.0, id.1.0) == files(self.entities, id.0.0, id.1.0));
        }
        assert forall|type_id: ComponentTypeId, entity: EntityId|
            self.component_types().contains_key(type_id)
                && #[trigger] self.component_types()[type_id].contains(entity)
                implies self.components().contains_key(ComponentInstanceId(entity, type_id)) by {
            assert(self.has(entity.0, type_id.0) == files(
                self.component_types,
                type_id.0,
                entity.0,
            ));
            assert(key_of(ComponentInstanceId(entity, type_id)) == (entity.0, type_id.0));
        }
        assert forall|id: ComponentInstanceId| #[trigger]
            self.components().contains_key(id) <==> self.entities().contains_key(id.0)
                && self.entities()[id.0].contains(id) by {
            assert(self.has(id.0.0, id.1.0) == files(self.entities, id.0.0, id.1.0));
        }
        assert forall|id: ComponentInstanceId| #[trigger]
            self.components().contains_key(id) <==> self.component_types().contains_key(id.1)
                && self.component_types()[id.1].contains(id.0) by {
            assert(self.has(id.0.0, id.1.0) == files(self.component_types, id.1.0, id.0.0));
        }
        assert forall|entity: EntityId| #[trigger]
            self.entities().contains_key(entity) implies exists|id: ComponentInstanceId|
            self.entities()[entity].contains(id) by {
            let set = self.entities@[entity.0]@;
            assert(self.entities@.contains_key(entity.0));
            assert(set.finite() && set.len() > 0);
            let member = set.choose();
            assert(set.contains(member)) by {
                if !set.contains(member) {
                    assert(set =~= Set::<u64>::empty());
                }
            }
            assert(self.entities()[entity].contains(
                ComponentInstanceId(entity, ComponentTypeId(member)),
            ));
        }
        assert forall|type_id: ComponentTypeId| #[trigger]
            self.component_types().contains_key(type_id) implies exists|entity: EntityId|
            self.component_types()[type_id].contains(entity) by {
            let set = self.component_types@[type_id.0]@;
            assert(self.component_types@.contains_key(type_id.0));
            assert(set.finite() && set.len() > 0);
            let member = set.choose();
            assert(set.contains(member)) by {
                if !set.contains(member) {
                    assert(set =~= Set::<u64>::empty());
                }
            }
            assert(self.component_types()[type_id].contains(EntityId(member)));
        }
        assert forall|id: ComponentInstanceId| #[trigger]
            self.components().contains_key(id) implies self.components()[id].id == id by {
            assert(self.has(id.0.0, id.1.0));
        }
        self.lemma_entity_numbers();
        assert(self.entities().dom() =~= owners(self.components())) by {
            assert forall|entity: EntityId|
                self.entities().contains_key(entity) == owners(self.components()).contains(
                    entity,
                ) by {
                if self.entities().contains_key(entity) {
                    let set = self.entities@[entity.0]@;
                    assert(set.finite() && set.len() > 0);
                    let member = set.choose();
                    assert(set.contains(member)) by {
                        if !set.contains(member) {
                            assert(set =~= Set::<u64>::empty());
                        }
                    }
                    let id = ComponentInstanceId(entity, ComponentTypeId(member));
                    assert(self.has(entity.0, member) == files(self.entities, entity.0, member));
                    assert(self.components().contains_key(id) && id.0 == entity);
                }
                if owners(self.components()).contains(entity) {
                    let id = choose|id: ComponentInstanceId|
                        self.components().contains_key(id) && id.0 == entity;
                    assert(self.has(id.0.0, id.1.0) == files(self.entities, id.0.0, id.1.0));
                }
            }
        }
    }

    /// An instance is listed under an entity exactly if it belongs to the
    /// entity and is stored.
    pub proof fn lemma_listed_by_entity(&self, entity: EntityId, id: ComponentInstanceId)
        requires
            self.wf(),
        ensures
            (self.entities().contains_key(entity) && self.entities()[entity].contains(id)) <==> (
            id.0 == entity && self.components().contains_key(id)),
    {
        assert(self.has(id.0.0, id.1.0) == files(self.entities, id.0.0, id.1.0));
    }

    /// An entity is listed under a type exactly if its component of the type
    /// is stored.
    pub proof fn lemma_listed_by_type(&self, type_id: ComponentTypeId, entity: EntityId)
        requires
            self.wf(),
        ensures
            (self.component_types().contains_key(type_id)
                && self.component_types()[type_id].contains(entity))
                <==> self.components().contains_key(ComponentInstanceId(entity, type_id)),
    {
        assert(self.has(entity.0, type_id.0) == files(self.component_types, type_id.0, entity.0));
        assert(key_of(ComponentInstanceId(entity, type_id)) == (entity.0, type_id.0));
    }

    /// An entity is in the index exactly if it owns a component, and a type
    /// exactly if some entity carries a component of it.
    pub proof fn lemma_index_keys(&self, entity: EntityId, type_id: ComponentTypeId)
        requires
            self.wf(),
        ensures
            self.entities().contains_key(entity) <==> owners(self.components()).contains(entity),
            self.component_types().contains_key(type_id) <==> exists|carrier: EntityId|
                self.components().contains_key(ComponentInstanceId(carrier, type_id)),
    {
        if self.entities().contains_key(entity) {
            let set = self.entities@[entity.0]@;
            assert(set.finite() && set.len() > 0);
            let member = set.choose();
            assert(set.contains(member)) by {
                if !set.contains(member) {
                    assert(set =~= Set::<u64>::empty());
                }
            }
            let id = ComponentInstanceId(entity, ComponentTypeId(member));
            self.lemma_listed_by_entity(entity, id);
            assert(self.entities()[entity].contains(id));
        }
        if owners(self.components()).contains(entity) {
            let id = choose|id: ComponentInstanceId|
                self.components().contains_key(id) && id.0 == entity;
            self.lemma_listed_by_entity(entity, id);
        }
        if self.component_types().contains_key(type_id) {
            let set = self.component_types@[type_id.0]@;
            assert(set.finite() && set.len() > 0);
            let member = set.choose();
            assert(set.contains(member)) by {
                if !set.contains(member) {
                    assert(set =~= Set::<u64>::empty());
                }
            }
            self.lemma_listed_by_type(type_id, EntityId(member));
            assert(self.component_types()[type_id].contains(EntityId(member)));
        }
        if exists|carrier: EntityId|
            self.components().contains_key(ComponentInstanceId(carrier, type_id)) {
            let carrier = choose|carrier: EntityId|
                self.components().contains_key(ComponentInstanceId(carrier, type_id));
            self.lemma_listed_by_type(type_id, carrier);
        }
    }

    /// The indices of a well-formed store follow from its instances: two
    /// well-formed stores that hold the same instances have the same
    /// indices.
    pub proof fn lemma_indices_follow(&self, other: Store)
        requires
            self.wf(),
            other.wf(),
            self@.dom() == other@.dom(),
        ensures
            self.entities() == other.entities(),
            self.component_types() == other.component_types(),
    {
        assert forall|id: ComponentInstanceId|
            self.components().contains_key(id) == other.components().contains_key(id) by {
            assert(self@.dom().contains(id) == other@.dom().contains(id));
        }
        assert forall|entity: EntityId|
            self.entities().contains_key(entity) == other.entities().contains_key(entity) by {
            self.lemma_index_keys(entity, ComponentTypeId(0));
            other.lemma_index_keys(entity, ComponentTypeId(0));
            if owners(self.components()).contains(entity) {
                let id = choose|id: ComponentInstanceId|
                    self.components().contains_key(id) && id.0 == entity;
                assert(other.components().contains_key(id));
            }
            if owners(other.components()).contains(entity) {
                let id = choose|id: ComponentInstanceId|
                    other.components().contains_key(id) && id.0 == entity;
                assert(self.components().contains_key(id));
            }
        }
        assert forall|entity: EntityId| #[trigger]
            self.entities().contains_key(entity) implies self.entities()[entity]
            =~= other.entities()[entity] by {
            assert forall|id: ComponentInstanceId|
                self.entities()[entity].contains(id) == other.entities()[entity].contains(id) by {
                self.lemma_listed_by_entity(entity, id);
                other.lemma_listed_by_entity(entity, id);
            }
        }
        assert(self.entities() =~= other.entities());
        assert forall|type_id: ComponentTypeId|
            self.component_types().contains_key(type_id) == other.component_types().contains_key(
                type_id,
            ) by {
            self.lemma_index_keys(EntityId(0), type_id);
            other.lemma_index_keys(EntityId(0), type_id);
            if exists|carrier: EntityId|
                self.components().contains_key(ComponentInstanceId(carrier, type_id)) {
                let carrier = choose|carrier: EntityId|
                    self.components().contains_key(ComponentInstanceId(carrier, type_id));
                assert(other.components().contains_key(ComponentInstanceId(carrier, type_id)));
            }
            if exists|carrier: EntityId|
                other.components().contains_key(ComponentInstanceId(carrier, type_id)) {
                let carrier = choose|carrier: EntityId|
                    other.components().contains_key(ComponentInstanceId(carrier, type_id));
                assert(self.components().contains_key(ComponentInstanceId(carrier, type_id)));
            }
        }
        assert forall|type_id: ComponentTypeId| #[trigger]
            self.component_types().contains_key(type_id) implies self.component_types()[type_id]
            =~= other.component_types()[type_id] by {
            assert forall|entity: EntityId|
                self.component_types()[type_id].contains(entity) == other.component_types()[type_id].contains(
                    entity,
                ) by {
                self.lemma_listed_by_type(type_id, entity);
                other.lemma_listed_by_type(type_id, entity);
            }
        }
        assert(self.component_types() =~= other.component_types());
    }
}

} // verus!
