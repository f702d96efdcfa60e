use melon::base_components::{
    changed_children_hook, removed_parent_hook, Children, Name, Parent, Player, Position,
};
use melon::commands::Command;
use melon::component::{
    type_id, type_id_from_str, ComponentInstanceId, ComponentType, ComponentTypeId,
    TypedComponent, UntypedComponent,
};
use melon::entity_id::{EntityAllocator, EntityId};
use melon::hashing::{bytes_hash, string_hash};
use melon::pipeline::MAX_HOOK_DEPTH;
use melon::position_map::{
    position_hook, PositionMap, POSITION_INSERT, POSITION_NEAREST, POSITION_REMOVE,
    POSITION_UPDATE,
};
use melon::query::{
    Change, ChangeType, ComponentGroup, QueryBuilder, QueryResultBuilder,
};
use melon::resource::{get_resource_id, Resource, ResourceKey, ResourceRequest};
use melon::resource_writer::ResourceWriter;
use melon::spatial::point_to_box;
use melon::store::Store;
use melon::world::{changes_from, entities_of, WorldBuilder};
use melon::base_components::{ChildrenHook, ParentHook};

#[test]
fn hash_of_known_strings() {
    assert_eq!(string_hash(""), 0xcbf2_9ce4_8422_2325);
    assert_eq!(string_hash("a"), 0xaf63_dc4c_8601_ec8c);
    assert_eq!(string_hash("foobar"), 0x8594_4171_f739_67e8);
    assert_eq!(bytes_hash(&[0x61]), string_hash("a"));
    assert_ne!(string_hash("ab"), string_hash("ba"));
}

#[test]
fn identifiers_follow_from_names() {
    assert_eq!(
        type_id::<Position>(),
        type_id_from_str("melon::base_components::Position")
    );
    assert_eq!(
        type_id::<Position>().num(),
        string_hash("melon::base_components::Position")
    );
    assert_eq!(ComponentTypeId::new::<Name>(), type_id::<Name>());
    assert_ne!(type_id::<Parent>(), type_id::<Children>());
    assert_eq!(ComponentTypeId::new_with_number(7).num(), 7);
    let id = ComponentInstanceId::new::<Name>(EntityId(3));
    assert_eq!(id, ComponentInstanceId::new_explicit(EntityId(3), type_id::<Name>()));
    assert_eq!(id.entity_id(), EntityId(3));
    assert_eq!(id.component_type_id(), type_id::<Name>());
    assert_eq!(EntityId::from_number(9).num(), 9);
    assert_eq!(
        get_resource_id("melon::position_map::PositionMap"),
        PositionMap::resource_key()
    );
    assert_eq!(
        get_resource_id("x"),
        ResourceKey(string_hash("x"))
    );
}

#[test]
fn a_closed_allocator_gives_nothing() {
    assert!(!EntityAllocator::closed().is_open());
    assert!(EntityAllocator::new(0, 1).is_open());
    assert!(!EntityAllocator::new(u64::MAX, 1).is_open());
    assert!(!EntityAllocator::new(7, 0).is_open());
    let mut closed = QueryResultBuilder::new()
        .with_allocator(EntityAllocator::closed())
        .build();
    assert!(closed.add_entity().is_none());
    assert_eq!(closed.len(), 0);
    let mut used_up = QueryResultBuilder::new()
        .with_allocator(EntityAllocator::new(u64::MAX - 1, 5))
        .build();
    assert_eq!(used_up.add_entity().unwrap().spawn(), EntityId(u64::MAX - 1));
    assert!(used_up.add_entity().is_none());
}

#[test]
fn allocator_strides_and_saturates() {
    let mut allocator = EntityAllocator::new(5, 3);
    assert_eq!(allocator.allocate(), EntityId(5));
    assert_eq!(allocator.allocate(), EntityId(8));
    assert_eq!(allocator.next, 11);
    let mut last = EntityAllocator::new(u64::MAX - 1, 4);
    assert_eq!(last.allocate(), EntityId(u64::MAX - 1));
    assert_eq!(last.next, u64::MAX);
    assert_eq!(last.allocate(), EntityId(u64::MAX));
    assert_eq!(last.next, u64::MAX);
}

#[test]
fn encodings_round_trip() {
    let position = Position { x: -7, y: i32::MAX };
    assert_eq!(position.encode().len(), 8);
    assert_eq!(position.encode(), vec![0xf9, 0xff, 0xff, 0x7f, 0xff, 0xff, 0xff, 0xff]);
    assert_eq!(Position::decode(&position.encode()), Some(position));
    assert_eq!(Position::decode(&vec![0u8; 7]), None);
    assert_eq!(
        Position::decode(&vec![0, 0, 0, 0x80, 0, 0, 0, 0]),
        Some(Position { x: 0, y: i32::MIN })
    );

    let name = Name { name: "zoë".to_string() };
    assert_eq!(name.encode(), "zoë".as_bytes().to_vec());
    assert_eq!(Name::decode(&name.encode()).unwrap().name, "zoë");
    assert!(Name::decode(&vec![0xff, 0xfe]).is_none());

    let player = Player { player_name: "ann".to_string(), player_id: 0x0102 };
    assert_eq!(
        player.encode(),
        vec![2, 1, 0, 0, 0, 0, 0, 0, b'a', b'n', b'n']
    );
    let back = Player::decode(&player.encode()).unwrap();
    assert_eq!((back.player_name.as_str(), back.player_id), ("ann", 0x0102));
    assert!(Player::decode(&vec![1, 2, 3]).is_none());
    assert!(Player::decode(&vec![0, 0, 0, 0, 0, 0, 0, 0, 0xff]).is_none());

    let children = Children { entities: vec![EntityId(1), EntityId(u64::MAX)] };
    assert_eq!(children.encode().len(), 16);
    assert_eq!(
        Children::decode(&children.encode()).unwrap().entities,
        vec![EntityId(1), EntityId(u64::MAX)]
    );
    assert!(Children::decode(&vec![0u8; 9]).is_none());
    assert_eq!(Children::decode(&Vec::new()).unwrap().entities, Vec::new());

    let parent = Parent { entity: EntityId(258) };
    assert_eq!(parent.encode(), vec![2, 1, 0, 0, 0, 0, 0, 0]);
    assert_eq!(Parent::decode(&parent.encode()), Some(parent));
    assert_eq!(Parent::decode(&vec![0u8; 4]), None);
}

#[test]
fn untyped_components_keep_their_type() {
    let component = UntypedComponent::new(Position { x: 1, y: 2 }, EntityId(4));
    assert_eq!(component.get_type(), type_id::<Position>());
    assert_eq!(component.entity_id(), EntityId(4));
    assert_eq!(component.id(), ComponentInstanceId::new::<Position>(EntityId(4)));
    assert_eq!(component.get::<Position>(), Some(Position { x: 1, y: 2 }));
    assert_eq!(component.get_unchecked::<Position>(), Position { x: 1, y: 2 });
    assert!(component.get::<Parent>().is_none());
    assert!(component.get::<Name>().is_none());
    let copy = component.clone();
    assert_eq!(copy.id(), component.id());
    assert_eq!(copy.data(), component.data());
    let raw = UntypedComponent::from_encoding(component.id(), component.data().clone());
    assert_eq!(raw.get::<Position>(), Some(Position { x: 1, y: 2 }));
}

#[test]
fn typed_components_copy_on_write() {
    let component = UntypedComponent::new(Position { x: 1, y: 2 }, EntityId(4));
    assert!(TypedComponent::<Parent>::new(component.clone()).is_none());
    let mut handle = TypedComponent::<Position>::new(component.clone()).unwrap();
    assert!(!handle.is_changed());
    assert_eq!(*handle.get(), Position { x: 1, y: 2 });
    assert_eq!(handle.get_untyped().data(), component.data());
    handle.make_mut().x = 10;
    assert!(handle.is_changed());
    assert_eq!(*handle.get(), Position { x: 10, y: 2 });
    let written = handle.get_untyped();
    assert_eq!(written.get::<Position>(), Some(Position { x: 10, y: 2 }));
    assert_eq!(written.id(), component.id());
    assert_eq!(handle.get_type_id(), type_id::<Position>());
    assert_eq!(handle.get_entity_id(), EntityId(4));
    assert_eq!(handle.get_instance_id(), component.id());
}

#[test]
fn groups_emit_what_was_written() {
    let entity = EntityId(2);
    let mut group = ComponentGroup::new(
        entity,
        vec![
            UntypedComponent::new(Position { x: 1, y: 1 }, entity),
            UntypedComponent::new(Parent { entity: EntityId(9) }, entity),
        ],
    );
    assert_eq!(group.get_id(), entity);
    assert_eq!(group.get_changes().len(), 0);
    assert!(group.get::<Name>().is_none());
    assert_eq!(group.read::<Parent>(), Some(Parent { entity: EntityId(9) }));
    {
        let mut handle = group.get::<Parent>().unwrap();
        handle.make_mut().entity = EntityId(10);
        // not committed: the group does not see the write
    }
    assert_eq!(group.read::<Parent>(), Some(Parent { entity: EntityId(9) }));
    let mut handle = group.get::<Parent>().unwrap();
    assert_eq!(handle.get().entity, EntityId(9));
    handle.make_mut().entity = EntityId(10);
    handle.commit();
    assert_eq!(group.read::<Parent>(), Some(Parent { entity: EntityId(10) }));
    let changes = group.get_changes();
    assert_eq!(changes.len(), 1);
    assert_eq!(changes[0].1, ChangeType::UpdateComponent);
    assert_eq!(changes[0].0.get::<Parent>(), Some(Parent { entity: EntityId(10) }));

    let spawned = ComponentGroup::spawned(
        entity,
        vec![
            UntypedComponent::new(Position { x: 1, y: 1 }, entity),
            UntypedComponent::new(Position { x: 2, y: 2 }, entity),
            UntypedComponent::new(Parent { entity: EntityId(9) }, entity),
        ],
    );
    let added = spawned.get_changes();
    assert_eq!(added.len(), 2);
    assert!(added.iter().all(|change| change.1 == ChangeType::AddComponent));
    assert_eq!(spawned.read::<Position>(), Some(Position { x: 2, y: 2 }));
}

#[test]
fn result_builder_collects_groups() {
    let mut builder = QueryResultBuilder::new().with_allocator(EntityAllocator::new(100, 10));
    builder.with_entity(
        vec![UntypedComponent::new(Position { x: 0, y: 0 }, EntityId(1))],
        EntityId(1),
    );
    builder.with_entity(Vec::new(), EntityId(2));
    let mut result = builder.build();
    assert_eq!(result.len(), 2);
    assert_eq!(result.iter()[0].get_id(), EntityId(1));
    assert_eq!(result.iter()[1].get_id(), EntityId(2));
    assert_eq!(result.next_entity(), 100);
    let first = result
        .add_entity()
        .unwrap()
        .with(Parent { entity: EntityId(1) })
        .spawn();
    let second = result.add_entity().unwrap().spawn();
    assert_eq!((first, second), (EntityId(100), EntityId(110)));
    assert_eq!(result.next_entity(), 120);
    assert_eq!(result.len(), 3);
    result.write_resource(ResourceRequest {
        key: ResourceKey(1),
        operation: 2,
        entity: first,
        arguments: vec![3],
    });
    assert_eq!(result.get_resource_writes().len(), 1);
    let (changes, writer) = result.dissolve();
    assert_eq!(changes.len(), 1);
    assert_eq!(changes[0].1, ChangeType::AddComponent);
    assert_eq!(changes[0].0.id(), ComponentInstanceId::new::<Parent>(first));
    let requests = writer.get_resource_writes();
    assert_eq!(requests.len(), 1);
    assert_eq!(requests[0].arguments, vec![3]);
}

fn store_of(components: Vec<UntypedComponent>) -> Store {
    let mut store = Store::new();
    for component in components {
        store.commit(Change(component, ChangeType::AddComponent));
    }
    store
}

fn ids_of(store: &Store, builder: QueryBuilder) -> Vec<u64> {
    let mut result = store.query(&builder.build(), EntityAllocator::new(0, 1));
    let mut ids: Vec<u64> = result.iter().iter().map(|group| group.get_id().0).collect();
    ids.sort();
    ids
}

#[test]
fn query_laws_on_a_small_store() {
    let store = store_of(vec![
        UntypedComponent::new(Position { x: 0, y: 0 }, EntityId(1)),
        UntypedComponent::new(Name { name: "one".to_string() }, EntityId(1)),
        UntypedComponent::new(Position { x: 0, y: 0 }, EntityId(2)),
        UntypedComponent::new(Name { name: "three".to_string() }, EntityId(3)),
        UntypedComponent::new(Parent { entity: EntityId(1) }, EntityId(3)),
        UntypedComponent::new(Position { x: 0, y: 0 }, EntityId(4)),
        UntypedComponent::new(Name { name: "four".to_string() }, EntityId(4)),
        UntypedComponent::new(Parent { entity: EntityId(1) }, EntityId(4)),
    ]);
    assert_eq!(store.number_of_entities(), 4);
    assert_eq!(ids_of(&store, QueryBuilder::new()), Vec::<u64>::new());
    assert_eq!(ids_of(&store, QueryBuilder::new().with::<Position>()), vec![1, 2, 4]);
    assert_eq!(ids_of(&store, QueryBuilder::new().with::<Name>()), vec![1, 3, 4]);
    assert_eq!(ids_of(&store, QueryBuilder::new().with::<Children>()), Vec::<u64>::new());
    assert_eq!(
        ids_of(&store, QueryBuilder::new().with::<Position>().with::<Name>()),
        vec![1, 4]
    );
    assert_eq!(
        ids_of(&store, QueryBuilder::new().with::<Name>().with::<Position>()),
        vec![1, 4]
    );
    assert_eq!(
        ids_of(
            &store,
            QueryBuilder::new().with::<Name>().with::<Position>().with::<Parent>()
        ),
        vec![4]
    );
    assert_eq!(
        ids_of(&store, QueryBuilder::new().with::<Name>().with::<Children>()),
        Vec::<u64>::new()
    );
    assert_eq!(
        ids_of(
            &store,
            QueryBuilder::new().with::<Name>().with::<Position>().with::<Children>()
        ),
        Vec::<u64>::new()
    );
    assert_eq!(
        ids_of(&store, QueryBuilder::new().with_type(type_id::<Parent>())),
        vec![3, 4]
    );
    // a group holds all components of its entity, not only those asked for
    let mut result = store.query(
        &QueryBuilder::new().with::<Parent>().with::<Position>().build(),
        EntityAllocator::new(0, 1),
    );
    assert_eq!(result.len(), 1);
    let group = &result.iter()[0];
    assert_eq!(group.read::<Name>().unwrap().name, "four");
    assert!(group.read::<Position>().is_some());
    assert!(group.read::<Parent>().is_some());
    let row = store.get_all_components_of_entity(EntityId(4)).unwrap();
    assert_eq!(row.len(), 3);
    assert!(row.iter().all(|component| component.entity_id() == EntityId(4)));
}

#[test]
fn store_keeps_entities_while_they_have_components() {
    let mut store = Store::new();
    assert_eq!(store.number_of_entities(), 0);
    let position = UntypedComponent::new(Position { x: 1, y: 2 }, EntityId(1));
    let name = UntypedComponent::new(Name { name: "n".to_string() }, EntityId(1));
    store.commit(Change(position.clone(), ChangeType::AddComponent));
    store.commit(Change(name.clone(), ChangeType::AddComponent));
    assert_eq!(store.number_of_entities(), 1);
    store.commit(Change(position.clone(), ChangeType::RemoveComponent));
    assert_eq!(store.number_of_entities(), 1);
    assert!(store.get_component::<Position>(EntityId(1)).is_none());
    assert_eq!(ids_of(&store, QueryBuilder::new().with::<Position>()), Vec::<u64>::new());
    store.commit(Change(name, ChangeType::UnloadComponent));
    assert_eq!(store.number_of_entities(), 0);
    assert!(store.get_all_components_of_entity(EntityId(1)).is_none());
    let moved = UntypedComponent::new(Position { x: 5, y: 5 }, EntityId(1));
    store.commit(Change(moved.clone(), ChangeType::UpdateComponent));
    assert_eq!(store.number_of_entities(), 0);
    store.commit(Change(position, ChangeType::AddComponent));
    store.commit(Change(moved, ChangeType::UpdateComponent));
    assert_eq!(
        store.get_component::<Position>(EntityId(1)),
        Some(Position { x: 5, y: 5 })
    );
    assert_eq!(
        store
            .get_component_by_instance_id(ComponentInstanceId::new::<Position>(EntityId(1)))
            .unwrap()
            .get::<Position>(),
        Some(Position { x: 5, y: 5 })
    );
}

#[test]
fn children_rule_links_and_releases() {
    let parent = EntityId(1);
    let store = store_of(vec![
        UntypedComponent::new(Parent { entity: EntityId(9) }, EntityId(20)),
        UntypedComponent::new(Parent { entity: parent }, EntityId(30)),
    ]);
    let carried = UntypedComponent::new(
        Children { entities: vec![EntityId(10), EntityId(20), EntityId(30)] },
        parent,
    );
    let mut writer = ResourceWriter::new();
    let emitted = changed_children_hook(
        &Change(carried.clone(), ChangeType::AddComponent),
        &store,
        &mut writer,
    );
    assert_eq!(writer.len(), 0);
    assert_eq!(emitted.len(), 2);
    assert_eq!(emitted[0].1, ChangeType::AddComponent);
    assert_eq!(emitted[0].0.id(), ComponentInstanceId::new::<Parent>(EntityId(10)));
    assert_eq!(emitted[0].0.get::<Parent>(), Some(Parent { entity: parent }));
    assert_eq!(emitted[1].1, ChangeType::UpdateComponent);
    assert_eq!(emitted[1].0.id(), ComponentInstanceId::new::<Parent>(EntityId(20)));
    assert_eq!(emitted[1].0.get::<Parent>(), Some(Parent { entity: parent }));

    let released = changed_children_hook(
        &Change(carried.clone(), ChangeType::UnloadComponent),
        &store,
        &mut writer,
    );
    assert_eq!(released.len(), 2);
    assert!(released.iter().all(|change| change.1 == ChangeType::UnloadComponent));
    assert_eq!(released[0].0.get::<Parent>(), Some(Parent { entity: EntityId(9) }));
    assert_eq!(released[1].0.id(), ComponentInstanceId::new::<Parent>(EntityId(30)));

    let other = UntypedComponent::new(Position { x: 0, y: 0 }, parent);
    assert_eq!(
        changed_children_hook(&Change(other, ChangeType::AddComponent), &store, &mut writer).len(),
        0
    );
}

#[test]
fn parent_rule_updates_the_list_of_children() {
    let parent = EntityId(1);
    let store = store_of(vec![UntypedComponent::new(
        Children { entities: vec![EntityId(10), EntityId(20), EntityId(10)] },
        parent,
    )]);
    let link = UntypedComponent::new(Parent { entity: parent }, EntityId(10));
    let mut writer = ResourceWriter::new();
    let emitted = removed_parent_hook(
        &Change(link.clone(), ChangeType::RemoveComponent),
        &store,
        &mut writer,
    );
    assert_eq!(emitted.len(), 1);
    assert_eq!(emitted[0].1, ChangeType::UpdateComponent);
    assert_eq!(emitted[0].0.id(), ComponentInstanceId::new::<Children>(parent));
    assert_eq!(
        emitted[0].0.get::<Children>().unwrap().entities,
        vec![EntityId(20)]
    );
    for kind in [ChangeType::AddComponent, ChangeType::UpdateComponent, ChangeType::UnloadComponent] {
        assert_eq!(
            removed_parent_hook(&Change(link.clone(), kind), &store, &mut writer).len(),
            0
        );
    }
    let stranger = UntypedComponent::new(Parent { entity: parent }, EntityId(99));
    assert_eq!(
        removed_parent_hook(&Change(stranger, ChangeType::RemoveComponent), &store, &mut writer)
            .len(),
        0
    );
    assert_eq!(writer.len(), 0);
}

#[test]
fn family_hooks_rest_after_two_rounds() {
    let mut world = WorldBuilder::new()
        .with_typed_hook::<Children, ChildrenHook>(ChildrenHook {})
        .with_typed_hook::<Parent, ParentHook>(ParentHook {})
        .build();
    let quiet = world.apply_changes(vec![Change(
        UntypedComponent::new(Name { name: "a".to_string() }, EntityId(10)),
        ChangeType::AddComponent,
    )]);
    assert_eq!(quiet, 1);
    let linked = world.apply_changes(vec![Change(
        UntypedComponent::new(Children { entities: vec![EntityId(10), EntityId(11)] }, EntityId(1)),
        ChangeType::AddComponent,
    )]);
    assert_eq!(linked, 2);
    assert_eq!(world.get_component::<Parent>(EntityId(10)).unwrap().entity, EntityId(1));
    assert_eq!(world.get_component::<Parent>(EntityId(11)).unwrap().entity, EntityId(1));
    let orphaned = world.apply_changes(vec![Change(
        UntypedComponent::new(Parent { entity: EntityId(1) }, EntityId(10)),
        ChangeType::RemoveComponent,
    )]);
    assert_eq!(orphaned, 2);
    assert!(world.get_component::<Parent>(EntityId(10)).is_none());
    assert_eq!(
        world.get_component::<Children>(EntityId(1)).unwrap().entities,
        vec![EntityId(11)]
    );
    // removing the list of children takes a round more: the children lose
    // their parent, and the parent's list follows
    let removed = world.apply_changes(vec![Change(
        UntypedComponent::new(Children { entities: vec![EntityId(11)] }, EntityId(1)),
        ChangeType::RemoveComponent,
    )]);
    assert_eq!(removed, 3);
    assert!(world.get_component::<Parent>(EntityId(11)).is_none());
    assert!(world.get_component::<Children>(EntityId(1)).is_none());
    assert_eq!(world.number_of_entities(), 1);
    assert!(MAX_HOOK_DEPTH >= 3);
}

#[test]
fn position_rule_queues_writes() {
    let store = Store::new();
    let mut writer = ResourceWriter::new();
    let component = UntypedComponent::new(Position { x: -3, y: 8 }, EntityId(6));
    for kind in [
        ChangeType::AddComponent,
        ChangeType::UpdateComponent,
        ChangeType::RemoveComponent,
        ChangeType::UnloadComponent,
    ] {
        assert_eq!(position_hook(&Change(component.clone(), kind), &store, &mut writer).len(), 0);
    }
    let stranger = UntypedComponent::new(Name { name: "n".to_string() }, EntityId(6));
    position_hook(&Change(stranger, ChangeType::AddComponent), &store, &mut writer);
    let requests = writer.get_resource_writes();
    assert_eq!(requests.len(), 4);
    let operations: Vec<u64> = requests.iter().map(|request| request.operation).collect();
    assert_eq!(
        operations,
        vec![POSITION_INSERT, POSITION_UPDATE, POSITION_REMOVE, POSITION_REMOVE]
    );
    assert_eq!(requests[0].arguments, vec![-3, 8]);
    assert_eq!(requests[1].arguments, vec![-3, 8]);
    assert_eq!(requests[2].arguments, Vec::<i64>::new());
    assert!(requests.iter().all(|request| request.entity == EntityId(6)
        && request.key == PositionMap::resource_key()));
}

#[test]
fn position_map_orders_the_nearest() {
    let mut map = PositionMap::new();
    assert_eq!(map.len(), 0);
    assert_eq!(map.get_nearest([0, 0], 3), Vec::new());
    map.insert(EntityId(5), [3, 4]);
    map.insert(EntityId(2), [0, 5]);
    map.insert(EntityId(9), [-5, 0]);
    map.insert(EntityId(1), [1, 1]);
    map.insert(EntityId(7), [100, 100]);
    assert_eq!(map.len(), 5);
    assert_eq!(
        map.get_nearest([0, 0], 4),
        vec![
            (EntityId(1), [1, 1]),
            (EntityId(2), [0, 5]),
            (EntityId(5), [3, 4]),
            (EntityId(9), [-5, 0]),
        ]
    );
    assert_eq!(
        map.get_nearest([0, 0], 2),
        vec![(EntityId(1), [1, 1]), (EntityId(2), [0, 5])]
    );
    assert_eq!(map.get_nearest([0, 0], 0), Vec::new());
    assert_eq!(map.get_nearest([0, 0], 50).len(), 5);
    assert_eq!(map.nearest_points(100, 100, 1), vec![(7, 100, 100)]);
    map.update(EntityId(2), [0, 1]);
    map.insert(EntityId(5), [50, 50]);
    map.remove(EntityId(9));
    map.remove(EntityId(9));
    assert_eq!(map.len(), 4);
    assert_eq!(
        map.get_nearest([0, 0], 10),
        vec![
            (EntityId(2), [0, 1]),
            (EntityId(1), [1, 1]),
            (EntityId(5), [50, 50]),
            (EntityId(7), [100, 100]),
        ]
    );
    // from the far corner the squares of the distances are 2a^2 + 2 for
    // (0, 1) and 2a^2 - 2a + 5 for (1, 1), where a is 2^31
    let far = map.get_nearest([i32::MAX, i32::MIN], 2);
    assert_eq!(far, vec![(EntityId(1), [1, 1]), (EntityId(5), [50, 50])]);
}

#[test]
fn position_map_breaks_ties_by_entity() {
    let mut map = PositionMap::new();
    for id in (0..200u64).rev() {
        let angle = (id % 4) as i32;
        let point = match angle {
            0 => [10, 0],
            1 => [0, 10],
            2 => [-10, 0],
            _ => [0, -10],
        };
        map.insert(EntityId(id), point);
    }
    map.insert(EntityId(1000), [1, 0]);
    let found = map.get_nearest([0, 0], 6);
    let ids: Vec<u64> = found.iter().map(|entry| entry.0 .0).collect();
    assert_eq!(ids, vec![1000, 0, 1, 2, 3, 4]);
}

#[test]
fn position_map_answers_requests() {
    let mut map = PositionMap::new();
    let key = map.key();
    assert_eq!(key, PositionMap::resource_key());
    let request = |operation: u64, entity: u64, arguments: Vec<i64>| ResourceRequest {
        key,
        operation,
        entity: EntityId(entity),
        arguments,
    };
    map.write(&request(POSITION_INSERT, 1, vec![2, 0]));
    map.write(&request(POSITION_INSERT, 2, vec![1, 0]));
    map.write(&request(POSITION_UPDATE, 3, vec![3, 0]));
    map.write(&request(POSITION_INSERT, 4, vec![1 << 40, 0]));
    map.write(&request(POSITION_INSERT, 5, vec![1]));
    map.write(&request(77, 6, vec![1, 1]));
    assert_eq!(map.len(), 3);
    assert_eq!(
        map.read(&request(POSITION_NEAREST, 0, vec![0, 0, 2])),
        vec![2, 1, 0, 1, 2, 0]
    );
    map.write(&request(POSITION_REMOVE, 2, Vec::new()));
    assert_eq!(
        map.read(&request(POSITION_NEAREST, 0, vec![0, 0, 5])),
        vec![1, 2, 0, 3, 3, 0]
    );
    assert_eq!(map.read(&request(POSITION_NEAREST, 0, vec![0, 0, -1])), Vec::<i64>::new());
    assert_eq!(map.read(&request(POSITION_NEAREST, 0, vec![0, 0])), Vec::<i64>::new());
    assert_eq!(map.read(&request(POSITION_INSERT, 0, vec![0, 0, 1])), Vec::<i64>::new());
}

#[test]
fn distance_to_a_box() {
    assert_eq!(point_to_box(3, 4, 3, 4, 0, 0), 25);
    assert_eq!(point_to_box(0, 0, 10, 10, 5, 5), 0);
    assert_eq!(point_to_box(0, 0, 10, 10, -3, 14), 25);
    assert_eq!(
        point_to_box(i32::MAX, i32::MAX, i32::MAX, i32::MAX, i32::MIN, i32::MIN),
        2 * (u32::MAX as i128) * (u32::MAX as i128)
    );
}

#[test]
fn commands_keep_their_order() {
    let mut command = Command::new();
    command.remove_entity(EntityId(1));
    command.remove_entity(EntityId(2));
    let id = ComponentInstanceId::new::<Name>(EntityId(3));
    command.remove_component(id);
    command.unload_entity(id);
    command.unload_component(id);
    command.unload_component(ComponentInstanceId::new::<Position>(EntityId(3)));
    command.write_resource(ResourceRequest {
        key: ResourceKey(4),
        operation: 0,
        entity: EntityId(1),
        arguments: vec![1, 2],
    });
    assert_eq!(command.get_removed_entities(), &vec![EntityId(1), EntityId(2)]);
    assert_eq!(command.get_removed_components(), &vec![id]);
    assert_eq!(command.get_unloaded_entities(), &vec![id]);
    assert_eq!(command.get_unloaded_components().len(), 2);
    assert_eq!(command.get_resource_writes().len(), 1);
    assert_eq!(command.get_resource_writes()[0].arguments, vec![1, 2]);
}

#[test]
fn helpers_on_component_lists() {
    let components = vec![
        UntypedComponent::new(Position { x: 0, y: 0 }, EntityId(4)),
        UntypedComponent::new(Parent { entity: EntityId(1) }, EntityId(2)),
        UntypedComponent::new(Parent { entity: EntityId(1) }, EntityId(4)),
    ];
    assert_eq!(entities_of(&components), vec![EntityId(4), EntityId(2)]);
    let changes = changes_from(&components, ChangeType::UnloadComponent);
    assert_eq!(changes.len(), 3);
    assert!(changes.iter().all(|change| change.1 == ChangeType::UnloadComponent));
    assert_eq!(changes[1].0.id(), components[1].id());
}

#[test]
fn the_built_in_types_have_their_identifiers() {
    assert_eq!(type_id::<Position>(), ComponentTypeId(1238640735083703857));
    assert_eq!(type_id::<Name>(), ComponentTypeId(8203640574990529893));
    assert_eq!(type_id::<Player>(), ComponentTypeId(2414148880962320559));
    assert_eq!(type_id::<Children>(), ComponentTypeId(9852529353839300273));
    assert_eq!(type_id::<Parent>(), ComponentTypeId(17625351871939473478));
    assert_eq!(
        string_hash("melon::base_components::"),
        0x0805_6e2f_9d76_5a66
    );
}
