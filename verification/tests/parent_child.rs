use melon::base_components::{Children, Name, Parent};
use melon::default_world::DefaultWorld;

#[test]
fn parent() {
    let mut world = DefaultWorld::get().build();
    let child = world
        .add_entity()
        .with(Name {
            name: "child".to_string(),
        })
        .spawn();
    let parent = world
        .add_entity()
        .with(Name {
            name: "parent".to_string(),
        })
        .with(Children {
            entities: vec![child],
        })
        .spawn();
    assert_eq!(
        world.get_component::<Parent>(child).unwrap().entity,
        parent
    );
    let parent2 = world
        .add_entity()
        .with(Name {
            name: "parent".to_string(),
        })
        .with(Children {
            entities: vec![child],
        })
        .spawn();
    assert_eq!(
        world.get_component::<Parent>(child).unwrap().entity,
        parent2
    );
    world.remove_entity(parent2);
    assert_eq!(world.get_component::<Parent>(child).is_none(), true);
    // the child and the first parent are left: each still has a component
    assert_eq!(world.number_of_entities(), 2);
}
