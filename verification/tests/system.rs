use melon::base_components::{Name, Position};
use melon::default_world::DefaultWorld;
use melon::query::{Query, QueryBuilder, QueryResult};
use melon::stage::StageBuilder;
use melon::system::System;
use melon::world::World;

struct TestSystem {}

impl System for TestSystem {
    fn query(&self) -> Query {
        QueryBuilder::new().with::<Position>().build()
    }

    fn execute(&self, query_result: &mut QueryResult, _world: &World) {
        for e in query_result.iter() {
            let mut position = e.get::<Position>().unwrap();
            position.make_mut().x += 1;
            position.commit();
        }
    }
}

#[test]
fn system() {
    let mut world = DefaultWorld::get().build();
    let x = world
        .add_entity()
        .with(Position { x: 0, y: 0 })
        .with(Name {
            name: "test".to_string(),
        })
        .spawn();
    let stage1 = StageBuilder::new().with_system(TestSystem {}).build();
    world.execute_stage(&stage1);
    assert_eq!(world.get_component::<Position>(x).unwrap().x, 1);
}
