use dungeon_ecs::command_buffer::CommandBuffer;
use dungeon_ecs::components::Component;
use dungeon_ecs::components::Health;
use dungeon_ecs::components::Point;
use dungeon_ecs::components::HEALTH_TYPE;
use dungeon_ecs::components::POSITION_TYPE;
use dungeon_ecs::query::EntityFilter;
use dungeon_ecs::query::Query;
use dungeon_ecs::query::SystemView;
use dungeon_ecs::subworld::SubWorld;
use dungeon_ecs::world::World;

fn position_query() -> Query {
    let mut reads = Vec::new();
    reads.push(POSITION_TYPE);
    Query::new(SystemView { reads, writes: Vec::new(), filter: EntityFilter::any() })
}

#[test]
fn deferred_removal_invisible_until_commit() {
    // the scenario of a system removing an entity mid-batch: a second
    // system in the same batch still sees it; after the commit it is gone
    let mut world = World::new();
    let e = world.push(vec![
        Component::Position(Point { x: 1, y: 1 }),
        Component::Health(Health { current: 2, max: 2 }),
    ]);
    let sub = SubWorld::full();
    let mut buffer = CommandBuffer::new();
    buffer.remove(e);

    // before the commit: the entity still appears, with its row intact
    let before = position_query().run(&world, &sub).unwrap();
    assert_eq!(before, vec![e]);
    assert!(world.contains(e));

    buffer.apply(&mut world);

    // after the commit: it does not
    let after = position_query().run(&world, &sub).unwrap();
    assert!(after.is_empty());
    assert!(!world.contains(e));
}

#[test]
fn deferred_spawn_appears_only_after_commit() {
    let mut world = World::new();
    let sub = SubWorld::full();
    let mut buffer = CommandBuffer::new();
    buffer.push(vec![Component::Position(Point { x: 4, y: 2 })]);

    assert!(position_query().run(&world, &sub).unwrap().is_empty());
    buffer.apply(&mut world);
    let spawned = position_query().run(&world, &sub).unwrap();
    assert_eq!(spawned.len(), 1);
    match world.get_component(spawned[0], POSITION_TYPE) {
        Some(Component::Position(p)) => assert_eq!(*p, Point { x: 4, y: 2 }),
        other => panic!("unexpected component: {:?}", other),
    }
}

#[test]
fn ops_apply_in_recorded_order() {
    let mut world = World::new();
    let e = world.push(vec![Component::Position(Point { x: 0, y: 0 })]);
    let mut buffer = CommandBuffer::new();
    buffer.add_component(e, Component::Health(Health { current: 1, max: 1 }));
    buffer.add_component(e, Component::Health(Health { current: 9, max: 9 }));
    buffer.remove_component(e, POSITION_TYPE);
    buffer.apply(&mut world);
    // the later add overwrote the earlier one, and the removal came last
    match world.get_component(e, HEALTH_TYPE) {
        Some(Component::Health(h)) => assert_eq!(h.current, 9),
        other => panic!("unexpected component: {:?}", other),
    }
    assert!(world.get_component(e, POSITION_TYPE).is_none());
    assert!(world.contains(e));
}

#[test]
fn second_apply_is_a_no_op() {
    let mut world = World::new();
    let mut buffer = CommandBuffer::new();
    buffer.push(vec![Component::Position(Point { x: 1, y: 1 })]);
    buffer.apply(&mut world);
    let sub = SubWorld::full();
    assert_eq!(position_query().run(&world, &sub).unwrap().len(), 1);
    // the buffer was drained: replaying it spawns nothing further
    buffer.apply(&mut world);
    assert_eq!(position_query().run(&world, &sub).unwrap().len(), 1);
}

#[test]
fn ops_on_dead_entities_are_skipped() {
    let mut world = World::new();
    let e = world.push(vec![Component::Position(Point { x: 1, y: 1 })]);
    assert!(world.remove(e));
    let mut buffer = CommandBuffer::new();
    buffer.remove(e);
    buffer.add_component(e, Component::Health(Health { current: 1, max: 1 }));
    buffer.remove_component(e, POSITION_TYPE);
    buffer.apply(&mut world);
    assert!(!world.contains(e));
}
