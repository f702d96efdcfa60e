use melon::base_components::{Children, Name, Parent, Position};
use melon::component::{type_id, ComponentInstanceId, UntypedComponent};
use melon::default_world::DefaultWorld;
use melon::entity_id::EntityId;
use melon::hook::{ChangeHook, Hook, Loader, Rule, Unloader};
use melon::position_map::{PositionMap, POSITION_NEAREST};
use melon::query::{Change, ChangeType, Query, QueryBuilder, QueryResult};
use melon::resource::{get_resource_id, Resource, ResourceKey, ResourceRequest};
use melon::resource_writer::ResourceWriter;
use melon::stage::StageBuilder;
use melon::store::Store;
use melon::system::System;
use melon::world::{World, WorldBuilder, WorldError};

struct Increment {}

impl System for Increment {
    fn query(&self) -> Query {
        QueryBuilder::new().with::<Position>().build()
    }

    fn execute(&self, query_result: &mut QueryResult, _world: &World) {
        for group in query_result.iter() {
            let mut position = group.get::<Position>().unwrap();
            position.make_mut().x += 1;
            position.commit();
        }
    }
}

struct ReadOnly {}

impl System for ReadOnly {
    fn query(&self) -> Query {
        QueryBuilder::new().with::<Position>().build()
    }

    fn execute(&self, query_result: &mut QueryResult, _world: &World) {
        for group in query_result.iter() {
            let position = group.get::<Position>().unwrap();
            assert!(position.get().y == 0);
            position.commit();
        }
    }
}

fn populated(count: i32) -> (World, Vec<EntityId>) {
    let mut world = DefaultWorld::get().build();
    let mut ids = Vec::new();
    for i in 0..count {
        let id = world
            .add_entity()
            .with(Position { x: i, y: 0 })
            .with(Name {
                name: "test".to_string(),
            })
            .spawn();
        ids.push(id);
    }
    (world, ids)
}

fn nearest(world: &World, x: i64, y: i64, n: i64) -> Vec<(u64, i64, i64)> {
    let request = ResourceRequest {
        key: PositionMap::resource_key(),
        operation: POSITION_NEAREST,
        entity: EntityId(0),
        arguments: vec![x, y, n],
    };
    let answer = world.read_resource(&request).unwrap();
    assert_eq!(answer.len() % 3, 0);
    let mut points = Vec::new();
    for k in 0..answer.len() / 3 {
        points.push((answer[3 * k] as u64, answer[3 * k + 1], answer[3 * k + 2]));
    }
    points
}

#[test]
fn spawn_and_count() {
    let (world, _) = populated(10_000);
    assert_eq!(world.number_of_entities(), 10_000);
    let query = QueryBuilder::new()
        .with::<Position>()
        .with::<Name>()
        .build();
    let mut result = world.query_world(query);
    assert_eq!(result.len(), 10_000);
    assert_eq!(result.iter().len(), 10_000);
}

#[test]
fn increment_system_twice() {
    let (mut world, ids) = populated(1_000);
    let stage = StageBuilder::new().with_system(Increment {}).build();
    world.execute_stage(&stage);
    for (i, id) in ids.iter().enumerate() {
        let position = world.get_component::<Position>(*id).unwrap();
        assert_eq!(position.x, i as i32 + 1);
        assert_eq!(position.y, 0);
    }
    world.execute_stage(&stage);
    for (i, id) in ids.iter().enumerate() {
        assert_eq!(world.get_component::<Position>(*id).unwrap().x, i as i32 + 2);
    }
    assert_eq!(world.number_of_entities(), 1_000);
}

#[test]
fn parent_on_add() {
    let mut world = DefaultWorld::get().build();
    let child = world
        .add_entity()
        .with(Name {
            name: "child".to_string(),
        })
        .spawn();
    let parent1 = world
        .add_entity()
        .with(Children {
            entities: vec![child],
        })
        .spawn();
    assert_eq!(world.get_component::<Parent>(child).unwrap().entity, parent1);
    let parent2 = world
        .add_entity()
        .with(Children {
            entities: vec![child],
        })
        .spawn();
    assert_eq!(world.get_component::<Parent>(child).unwrap().entity, parent2);
    world.remove_entity(parent2);
    assert!(world.get_component::<Parent>(child).is_none());
    assert!(world.get_component::<Children>(parent2).is_none());
    assert_eq!(
        world.get_component::<Children>(parent1).unwrap().entities,
        vec![child]
    );
    assert_eq!(world.number_of_entities(), 2);
}

#[test]
fn spatial_index_follows_positions() {
    let (mut world, ids) = populated(10_000);
    let before = nearest(&world, 0, 0, 10);
    assert_eq!(before.len(), 10);
    for (k, point) in before.iter().enumerate() {
        assert_eq!(*point, (ids[k].0, k as i64, 0));
    }
    let stage = StageBuilder::new().with_system(Increment {}).build();
    world.execute_stage(&stage);
    let after = nearest(&world, 0, 0, 10);
    assert_eq!(after.len(), 10);
    for (k, point) in after.iter().enumerate() {
        assert_eq!(*point, (ids[k].0, k as i64 + 1, 0));
    }
}

#[test]
fn remove_then_requery() {
    let mut world = DefaultWorld::get().build();
    let kept = world
        .add_entity()
        .with(Position { x: 5, y: 5 })
        .spawn();
    let e = world
        .add_entity()
        .with(Position { x: 1, y: 2 })
        .with(Name {
            name: "gone".to_string(),
        })
        .spawn();
    assert_eq!(world.number_of_entities(), 2);
    world.remove_entity(e);
    let mut result = world.query_world(QueryBuilder::new().with::<Position>().build());
    let found: Vec<EntityId> = result.iter().iter().map(|group| group.get_id()).collect();
    assert_eq!(found, vec![kept]);
    assert!(world.get_component::<Name>(e).is_none());
    assert!(world.get_component::<Position>(e).is_none());
    assert!(world.get_all_components_of_entity(e).is_none());
    assert!(world
        .get_component_by_instance_id(ComponentInstanceId::new::<Position>(e))
        .is_none());
    assert_eq!(world.number_of_entities(), 1);
    assert_eq!(nearest(&world, 0, 0, 10), vec![(kept.0, 5, 5)]);
    // removing an entity that is gone changes nothing
    world.remove_entity(e);
    assert_eq!(world.number_of_entities(), 1);
}

struct Counter {
    count: i64,
}

fn counter_key() -> ResourceKey {
    get_resource_id("scenarios::Counter")
}

impl Resource for Counter {
    fn key(&self) -> ResourceKey {
        counter_key()
    }

    fn write(&mut self, request: &ResourceRequest) {
        self.count += request.arguments[0];
    }

    fn read(&self, _request: &ResourceRequest) -> Vec<i64> {
        vec![self.count]
    }
}

struct CountAdds {}

impl Hook for CountAdds {
    fn execute(
        &self,
        change: &Change,
        _store: &Store,
        writer: &mut ResourceWriter,
    ) -> Vec<Change> {
        if change.1 == ChangeType::AddComponent {
            writer.write_resource(ResourceRequest {
                key: counter_key(),
                operation: 0,
                entity: change.0.entity_id(),
                arguments: vec![1],
            });
        }
        Vec::new()
    }
}

fn count_of(world: &World) -> i64 {
    let request = ResourceRequest {
        key: counter_key(),
        operation: 0,
        entity: EntityId(0),
        arguments: Vec::new(),
    };
    world.read_resource(&request).unwrap()[0]
}

#[test]
fn resource_write_from_hook() {
    let mut world = WorldBuilder::new()
        .with_resource(Counter { count: 0 })
        .with_hook(CountAdds {})
        .build();
    for i in 0..5 {
        world
            .add_entity()
            .with(Position { x: i, y: i })
            .with(Name {
                name: "counted".to_string(),
            })
            .spawn();
    }
    assert_eq!(count_of(&world), 10);
    assert_eq!(world.number_of_entities(), 5);
}

#[test]
fn unregistered_resource_is_not_found() {
    let mut world = WorldBuilder::new().build();
    let request = ResourceRequest {
        key: counter_key(),
        operation: 0,
        entity: EntityId(0),
        arguments: vec![1],
    };
    assert_eq!(
        world.read_resource(&request).unwrap_err(),
        WorldError::ResourceNotFound
    );
    assert_eq!(
        world.write_resource(&request).unwrap_err(),
        WorldError::ResourceNotFound
    );
    let mut writer = ResourceWriter::new();
    writer.write_resource(request.clone());
    writer.write_resource(request);
    assert_eq!(world.execute_command(writer), 2);
}

#[test]
fn direct_resource_write_is_delivered() {
    let mut world = WorldBuilder::new()
        .with_resource(Counter { count: 3 })
        .build();
    let request = ResourceRequest {
        key: counter_key(),
        operation: 0,
        entity: EntityId(0),
        arguments: vec![4],
    };
    assert!(world.write_resource(&request).is_ok());
    assert_eq!(count_of(&world), 7);
    let mut writer = ResourceWriter::new();
    writer.write_resource(request.clone());
    writer.write_resource(ResourceRequest {
        key: ResourceKey(1),
        operation: 0,
        entity: EntityId(0),
        arguments: vec![1],
    });
    writer.write_resource(request);
    assert_eq!(world.execute_command(writer), 1);
    assert_eq!(count_of(&world), 15);
}

#[test]
fn read_only_system_changes_nothing() {
    let (mut world, ids) = populated(50);
    let mut result = world.query_world(QueryBuilder::new().with::<Position>().build());
    for group in result.iter() {
        let position = group.get::<Position>().unwrap();
        assert_eq!(position.get().y, 0);
        position.commit();
    }
    let (changes, writer) = result.dissolve();
    assert_eq!(changes.len(), 0);
    assert_eq!(writer.len(), 0);
    let stage = StageBuilder::new().with_system(ReadOnly {}).build();
    world.execute_stage(&stage);
    for (i, id) in ids.iter().enumerate() {
        assert_eq!(world.get_component::<Position>(*id).unwrap().x, i as i32);
    }
}

#[test]
fn one_update_for_each_written_component() {
    let (world, ids) = populated(3);
    let mut result = world.query_world(QueryBuilder::new().with::<Position>().build());
    for group in result.iter() {
        if group.get_id() == ids[1] {
            let mut position = group.get::<Position>().unwrap();
            position.make_mut().y = 9;
            position.make_mut().x = 7;
            position.commit();
        }
    }
    let (changes, _) = result.dissolve();
    assert_eq!(changes.len(), 1);
    assert_eq!(changes[0].1, ChangeType::UpdateComponent);
    assert_eq!(changes[0].0.id(), ComponentInstanceId::new::<Position>(ids[1]));
    assert_eq!(changes[0].0.get_type(), type_id::<Position>());
    let written = changes[0].0.get::<Position>().unwrap();
    assert_eq!((written.x, written.y), (7, 9));
}

struct Spawner {}

impl System for Spawner {
    fn query(&self) -> Query {
        QueryBuilder::new().with::<Name>().build()
    }

    fn execute(&self, query_result: &mut QueryResult, _world: &World) {
        let count = query_result.len() as i32;
        query_result
            .add_entity()
            .unwrap()
            .with(Position { x: count, y: -1 })
            .spawn();
    }
}

#[test]
fn systems_spawn_distinct_entities() {
    let (mut world, ids) = populated(4);
    let stage = StageBuilder::new()
        .with_system(Spawner {})
        .with_system(Spawner {})
        .with_system(Increment {})
        .build();
    world.execute_stage(&stage);
    assert_eq!(world.number_of_entities(), 6);
    let mut result = world.query_world(QueryBuilder::new().with::<Position>().build());
    assert_eq!(result.len(), 6);
    let mut spawned = 0;
    for group in result.iter() {
        if !ids.contains(&group.get_id()) {
            let position = group.read::<Position>().unwrap();
            assert_eq!((position.x, position.y), (4, -1));
            spawned += 1;
        }
    }
    assert_eq!(spawned, 2);
    // a later spawn gets an identifier that no system used
    let late = world.add_entity().with(Position { x: 0, y: 0 }).spawn();
    assert_eq!(world.number_of_entities(), 7);
    assert!(!ids.contains(&late));
}

#[test]
fn add_then_remove_leaves_the_world_as_it_was() {
    let (mut world, ids) = populated(2);
    let extra = UntypedComponent::new(Parent { entity: ids[0] }, ids[1]);
    let before = world.get_all_components_of_entity(ids[1]).unwrap().len();
    let rounds = world.apply_changes(vec![
        Change(extra.clone(), ChangeType::AddComponent),
        Change(extra.clone(), ChangeType::RemoveComponent),
    ]);
    assert_eq!(rounds, 1);
    assert!(world.get_component::<Parent>(ids[1]).is_none());
    assert_eq!(
        world.get_all_components_of_entity(ids[1]).unwrap().len(),
        before
    );
    assert_eq!(world.number_of_entities(), 2);
    let result = world.query_world(QueryBuilder::new().with::<Parent>().build());
    assert_eq!(result.len(), 0);
}

#[test]
fn update_of_a_missing_component_is_ignored() {
    let (mut world, ids) = populated(1);
    let ghost = UntypedComponent::new(Parent { entity: ids[0] }, EntityId(77));
    world.apply_changes(vec![Change(ghost.clone(), ChangeType::UpdateComponent)]);
    assert_eq!(world.number_of_entities(), 1);
    assert!(world.get_component::<Parent>(EntityId(77)).is_none());
    // adding twice replaces, removing twice does nothing
    let second = UntypedComponent::new(Parent { entity: EntityId(5) }, EntityId(77));
    world.apply_changes(vec![
        Change(ghost.clone(), ChangeType::AddComponent),
        Change(second, ChangeType::AddComponent),
    ]);
    assert_eq!(world.number_of_entities(), 2);
    assert_eq!(
        world.get_component::<Parent>(EntityId(77)).unwrap().entity,
        EntityId(5)
    );
    world.apply_changes(vec![
        Change(ghost.clone(), ChangeType::UnloadComponent),
        Change(ghost, ChangeType::RemoveComponent),
    ]);
    assert_eq!(world.number_of_entities(), 1);
}

struct Shelf {}

impl Loader for Shelf {
    fn load(&self, id: Vec<EntityId>, _store: &Store) -> Vec<UntypedComponent> {
        let mut components = Vec::new();
        for entity in id {
            components.push(UntypedComponent::new(
                Name {
                    name: "loaded".to_string(),
                },
                entity,
            ));
            components.push(UntypedComponent::new(
                Position {
                    x: entity.0 as i32,
                    y: 0,
                },
                entity,
            ));
        }
        components
    }
}

struct Sink {}

impl Unloader for Sink {
    fn hook(&self, _component: Vec<UntypedComponent>, _store: &Store) {}
}

#[test]
fn loading_adds_what_the_loader_returns() {
    let mut bare = WorldBuilder::new().build();
    assert_eq!(bare.load(vec![EntityId(1)]), Vec::new());
    assert_eq!(bare.number_of_entities(), 0);

    let mut world = DefaultWorld::get()
        .with_loader(Shelf {})
        .with_unloader(Sink {})
        .build();
    let loaded = world.load(vec![EntityId(40), EntityId(41), EntityId(40)]);
    assert_eq!(loaded, vec![EntityId(40), EntityId(41)]);
    assert_eq!(world.number_of_entities(), 2);
    assert_eq!(world.get_component::<Name>(EntityId(41)).unwrap().name, "loaded");
    assert_eq!(
        nearest(&world, 0, 0, 5),
        vec![(40, 40, 0), (41, 41, 0)]
    );
}

#[test]
fn hooks_are_registered_with_their_rule() {
    let untyped = ChangeHook::new(Rule::Custom(Box::new(CountAdds {})));
    assert_eq!(untyped.get_type(), None);
    let typed = ChangeHook::new_typed::<Position>(Rule::Custom(Box::new(CountAdds {})));
    assert_eq!(typed.get_type(), Some(type_id::<Position>()));
    let mut world = WorldBuilder::new()
        .with_resource(Counter { count: 0 })
        .with_change_hook(typed)
        .with_change_hook(ChangeHook::children())
        .build();
    let child = world
        .add_entity()
        .with(Position { x: 1, y: 1 })
        .with(Name {
            name: "child".to_string(),
        })
        .spawn();
    let parent = world
        .add_entity()
        .with(Children {
            entities: vec![child],
        })
        .spawn();
    // the typed hook ran on the one position only
    assert_eq!(count_of(&world), 1);
    assert_eq!(world.get_component::<Parent>(child).unwrap().entity, parent);
}

#[test]
fn new_entities_do_not_take_loaded_identifiers() {
    let mut world = WorldBuilder::new().with_loader(Shelf {}).build();
    world.load(vec![EntityId(0), EntityId(1), EntityId(3)]);
    let first = world.add_entity().with(Position { x: 0, y: 0 }).spawn();
    let second = world.add_entity().with(Position { x: 0, y: 0 }).spawn();
    assert_eq!((first, second), (EntityId(2), EntityId(4)));
    assert_eq!(world.number_of_entities(), 5);
    assert_eq!(world.get_component::<Name>(EntityId(3)).unwrap().name, "loaded");
}

#[test]
fn undelivered_writes_are_counted() {
    let mut world = WorldBuilder::new().with_hook(CountAdds {}).build();
    assert_eq!(world.undelivered_writes(), 0);
    world
        .add_entity()
        .with(Position { x: 0, y: 0 })
        .with(Name {
            name: "n".to_string(),
        })
        .spawn();
    // the hook wrote to a counter that is not registered, twice
    assert_eq!(world.undelivered_writes(), 2);
    let stage = StageBuilder::new().with_system(Increment {}).build();
    world.execute_stage(&stage);
    assert_eq!(world.undelivered_writes(), 2);
}

#[test]
fn staged_systems_run_like_systems() {
    let (mut world, ids) = populated(3);
    let stage = StageBuilder::new()
        .with_staged(melon::stage::StagedSystem {
            system: Box::new(Increment {}),
        })
        .build();
    assert_eq!(stage.len(), 1);
    world.execute_stage(&stage);
    assert_eq!(world.get_component::<Position>(ids[2]).unwrap().x, 3);
    let again = StageBuilder::new()
        .with_staged(melon::stage::StagedSystem::new(Increment {}))
        .with_system(Increment {})
        .build();
    assert_eq!(again.len(), 2);
    assert_eq!(again.iter().len(), 2);
}

#[test]
fn a_registered_position_map_is_written() {
    let mut map = PositionMap::new();
    map.insert(EntityId(9), [1, 1]);
    let mut world = WorldBuilder::new().with_resource(map).build();
    assert_eq!(nearest(&world, 0, 0, 3), vec![(9, 1, 1)]);
    let request = ResourceRequest {
        key: PositionMap::resource_key(),
        operation: melon::position_map::POSITION_INSERT,
        entity: EntityId(4),
        arguments: vec![0, 1],
    };
    assert!(world.write_resource(&request).is_ok());
    assert_eq!(nearest(&world, 0, 0, 3), vec![(4, 0, 1), (9, 1, 1)]);
    assert_eq!(world.undelivered_writes(), 0);
}

struct Namer {}

impl System for Namer {
    fn query(&self) -> Query {
        QueryBuilder::new().with::<Position>().build()
    }

    fn execute(&self, query_result: &mut QueryResult, _world: &World) {
        for _ in 0..2 {
            query_result
                .add_entity()
                .unwrap()
                .with(Name {
                    name: "spawned".to_string(),
                })
                .spawn();
        }
    }
}

#[test]
fn a_plain_query_gives_no_identifiers() {
    let mut world = DefaultWorld::get().build();
    let mut result = world.query_world(QueryBuilder::new().with::<Position>().build());
    assert!(result.add_entity().is_none());
    assert_eq!(result.len(), 0);
    let first = world.add_entity().with(Position { x: 0, y: 0 }).spawn();
    assert_eq!(first, EntityId(0));
    let mut again = world.query_world(QueryBuilder::new().with::<Position>().build());
    assert!(again.add_entity().is_none());
    assert_eq!(again.len(), 1);
}

#[test]
fn systems_spawn_under_fresh_identifiers() {
    let mut world = WorldBuilder::new().with_loader(Shelf {}).build();
    world.load(vec![EntityId(0), EntityId(1), EntityId(3)]);
    assert_eq!(world.number_of_entities(), 3);
    let stage = StageBuilder::new()
        .with_system(Namer {})
        .with_system(Namer {})
        .build();
    world.execute_stage(&stage);
    assert_eq!(world.number_of_entities(), 7);
    for loaded in [0, 1, 3] {
        assert_eq!(
            world.get_component::<Name>(EntityId(loaded)).unwrap().name,
            "loaded"
        );
    }
    for spawned in 4..8 {
        assert_eq!(
            world.get_component::<Name>(EntityId(spawned)).unwrap().name,
            "spawned"
        );
    }
    assert!(world.get_component::<Name>(EntityId(2)).is_none());
    let next = world.add_entity().with(Position { x: 0, y: 0 }).spawn();
    assert_eq!(next, EntityId(9));
    world.execute_stage(&stage);
    assert_eq!(world.number_of_entities(), 12);
    for spawned in 10..14 {
        assert_eq!(
            world.get_component::<Name>(EntityId(spawned)).unwrap().name,
            "spawned"
        );
    }
}

#[test]
fn changes_for_an_entity_move_the_stage_past_it() {
    let mut world = WorldBuilder::new().build();
    world.apply_changes(vec![Change(
        UntypedComponent::new(Position { x: 1, y: 1 }, EntityId(0)),
        ChangeType::AddComponent,
    )]);
    let stage = StageBuilder::new().with_system(Namer {}).build();
    world.execute_stage(&stage);
    assert_eq!(world.number_of_entities(), 3);
    assert_eq!(world.get_component::<Position>(EntityId(0)).unwrap().x, 1);
    assert!(world.get_component::<Name>(EntityId(0)).is_none());
    assert_eq!(
        world.get_component::<Name>(EntityId(2)).unwrap().name,
        "spawned"
    );
}
