use dungeon_ecs::access::Error;
use dungeon_ecs::components::Component;
use dungeon_ecs::components::Health;
use dungeon_ecs::components::Point;
use dungeon_ecs::components::HEALTH_TYPE;
use dungeon_ecs::components::NAME_TYPE;
use dungeon_ecs::components::POSITION_TYPE;
use dungeon_ecs::permissions::PermissionSet;
use dungeon_ecs::query::EntityFilter;
use dungeon_ecs::query::Query;
use dungeon_ecs::query::SystemView;
use dungeon_ecs::subworld::SubWorld;
use dungeon_ecs::world::World;

fn sample_row(x: i32, y: i32, hp: i32) -> Vec<Component> {
    vec![
        Component::Position(Point { x, y }),
        Component::Health(Health { current: hp, max: hp }),
    ]
}

fn write_request(t: u64) -> PermissionSet {
    let mut p = PermissionSet::new();
    p.push(t);
    p
}

fn read_request(t: u64) -> PermissionSet {
    let mut p = PermissionSet::new();
    p.push_read(t);
    p
}

fn position_query() -> Query {
    let mut reads = Vec::new();
    reads.push(POSITION_TYPE);
    Query::new(SystemView { reads, writes: Vec::new(), filter: EntityFilter::any() })
}

#[test]
fn push_and_read_components() {
    let mut world = World::new();
    let e = world.push(sample_row(3, 4, 7));
    assert!(world.contains(e));
    match world.get_component(e, POSITION_TYPE) {
        Some(Component::Position(p)) => assert_eq!(*p, Point { x: 3, y: 4 }),
        other => panic!("unexpected component: {:?}", other),
    }
    match world.get_component(e, HEALTH_TYPE) {
        Some(Component::Health(h)) => assert_eq!(h.current, 7),
        other => panic!("unexpected component: {:?}", other),
    }
    assert!(world.get_component(e, NAME_TYPE).is_none());
}

#[test]
fn remove_invalidates_identifier() {
    let mut world = World::new();
    let e = world.push(sample_row(0, 0, 1));
    assert!(world.remove(e));
    assert!(!world.contains(e));
    assert!(world.get_component(e, POSITION_TYPE).is_none());
    // removing again is a no-op
    assert!(!world.remove(e));
    // the index is recycled with a fresh generation: the stale identifier
    // still reaches nothing
    let e2 = world.push(sample_row(1, 1, 2));
    assert_eq!(e2.index, e.index);
    assert!(e2.generation > e.generation);
    assert!(!world.contains(e));
    assert!(world.contains(e2));
}

#[test]
fn entities_group_into_archetypes() {
    let mut world = World::new();
    let a = world.push(sample_row(1, 0, 1));
    let b = world.push(sample_row(2, 0, 1));
    let c = world.push(vec![Component::Position(Point { x: 9, y: 9 })]);
    // same signature, same archetype; different signature, different one
    let la = world.locate(a).unwrap();
    let lb = world.locate(b).unwrap();
    let lc = world.locate(c).unwrap();
    assert_eq!(la.archetype, lb.archetype);
    assert_ne!(la.archetype, lc.archetype);
}

#[test]
fn add_and_remove_component_migrates() {
    let mut world = World::new();
    let e = world.push(vec![Component::Position(Point { x: 5, y: 5 })]);
    assert!(world.add_component(e, Component::Health(Health { current: 3, max: 3 })));
    match world.get_component(e, HEALTH_TYPE) {
        Some(Component::Health(h)) => assert_eq!(h.max, 3),
        other => panic!("unexpected component: {:?}", other),
    }
    // the old component survives the migration
    match world.get_component(e, POSITION_TYPE) {
        Some(Component::Position(p)) => assert_eq!(*p, Point { x: 5, y: 5 }),
        other => panic!("unexpected component: {:?}", other),
    }
    assert!(world.remove_component(e, HEALTH_TYPE));
    assert!(world.get_component(e, HEALTH_TYPE).is_none());
    assert!(!world.remove_component(e, HEALTH_TYPE));
    assert!(world.contains(e));
}

#[test]
fn replace_component_overwrites_in_place() {
    let mut world = World::new();
    let e = world.push(sample_row(1, 2, 9));
    assert!(world.replace_component(e, Component::Health(Health { current: 4, max: 9 })));
    match world.get_component(e, HEALTH_TYPE) {
        Some(Component::Health(h)) => assert_eq!((h.current, h.max), (4, 9)),
        other => panic!("unexpected component: {:?}", other),
    }
    // replacing a type the entity lacks changes nothing
    assert!(!world.replace_component(e, Component::Name("x".to_string())));
    assert!(world.get_component(e, NAME_TYPE).is_none());
}

#[test]
fn writeread_left_included() {
    let mut world = World::new();
    let entity = world.push(sample_row(0, 0, 1));
    let (left, _) = SubWorld::full().split(write_request(POSITION_TYPE)).unwrap();
    let entry = left.entry_ref(&world, entity).unwrap();
    assert!(entry.get_component(&world, POSITION_TYPE).is_ok());
}

#[test]
fn writeread_left_excluded() {
    let mut world = World::new();
    let entity = world.push(sample_row(0, 0, 1));
    let (left, _) = SubWorld::full().split(write_request(POSITION_TYPE)).unwrap();
    let entry = left.entry_ref(&world, entity).unwrap();
    assert_eq!(entry.get_component(&world, HEALTH_TYPE).unwrap_err(), Error::AccessDenied);
}

#[test]
fn writeread_right_included() {
    let mut world = World::new();
    let entity = world.push(sample_row(0, 0, 1));
    let (_, right) = SubWorld::full().split(write_request(POSITION_TYPE)).unwrap();
    let entry = right.entry_ref(&world, entity).unwrap();
    assert!(entry.get_component(&world, HEALTH_TYPE).is_ok());
}

#[test]
fn writeread_right_excluded() {
    let mut world = World::new();
    let entity = world.push(sample_row(0, 0, 1));
    let (_, right) = SubWorld::full().split(write_request(POSITION_TYPE)).unwrap();
    let entry = right.entry_ref(&world, entity).unwrap();
    assert_eq!(entry.get_component(&world, POSITION_TYPE).unwrap_err(), Error::AccessDenied);
}

#[test]
fn readread_both_sides_read() {
    let mut world = World::new();
    let entity = world.push(sample_row(0, 0, 1));
    let (left, right) = SubWorld::full().split(read_request(POSITION_TYPE)).unwrap();
    assert!(left.entry_ref(&world, entity).unwrap().get_component(&world, POSITION_TYPE).is_ok());
    // a shared read stays readable on the right as well
    assert!(right.entry_ref(&world, entity).unwrap().get_component(&world, POSITION_TYPE).is_ok());
    // but the left reader sees nothing else
    assert_eq!(
        left.entry_ref(&world, entity).unwrap().get_component(&world, HEALTH_TYPE).unwrap_err(),
        Error::AccessDenied
    );
}

#[test]
fn writewrite_left_included() {
    let mut world = World::new();
    let entity = world.push(sample_row(0, 0, 1));
    let (mut left, _) = SubWorld::full().split(write_request(POSITION_TYPE)).unwrap();
    let entry = left.entry_mut(&world, entity).unwrap();
    assert!(entry
        .set_component(&mut world, Component::Position(Point { x: 8, y: 8 }))
        .is_ok());
    match world.get_component(entity, POSITION_TYPE) {
        Some(Component::Position(p)) => assert_eq!(*p, Point { x: 8, y: 8 }),
        other => panic!("unexpected component: {:?}", other),
    }
}

#[test]
fn writewrite_left_excluded() {
    let mut world = World::new();
    let entity = world.push(sample_row(0, 0, 1));
    let (mut left, _) = SubWorld::full().split(write_request(POSITION_TYPE)).unwrap();
    let entry = left.entry_mut(&world, entity).unwrap();
    assert_eq!(
        entry
            .set_component(&mut world, Component::Health(Health { current: 5, max: 5 }))
            .unwrap_err(),
        Error::AccessDenied
    );
}

#[test]
fn writewrite_right_included() {
    let mut world = World::new();
    let entity = world.push(sample_row(0, 0, 1));
    let (_, mut right) = SubWorld::full().split(write_request(POSITION_TYPE)).unwrap();
    let entry = right.entry_mut(&world, entity).unwrap();
    assert!(entry
        .set_component(&mut world, Component::Health(Health { current: 5, max: 5 }))
        .is_ok());
}

#[test]
fn readwrite_denied_on_read_only_grant() {
    let mut world = World::new();
    let entity = world.push(sample_row(0, 0, 1));
    let (mut left, _) = SubWorld::full().split(read_request(POSITION_TYPE)).unwrap();
    let entry = left.entry_mut(&world, entity).unwrap();
    assert_eq!(
        entry
            .set_component(&mut world, Component::Position(Point { x: 1, y: 1 }))
            .unwrap_err(),
        Error::AccessDenied
    );
}

#[test]
fn query_yields_matching_entities_in_order() {
    let mut world = World::new();
    let a = world.push(sample_row(1, 1, 1));
    let b = world.push(sample_row(2, 2, 2));
    let c = world.push(vec![Component::Name("sign".to_string())]);
    let sub = SubWorld::full();
    let result = position_query().run(&world, &sub).unwrap();
    assert_eq!(result, vec![a, b]);
    let _ = c;
}

#[test]
fn query_respects_archetype_scope() {
    let mut world = World::new();
    let a = world.push(sample_row(1, 1, 1));
    let b = world.push(vec![Component::Position(Point { x: 2, y: 2 })]);
    let arch_a = world.locate(a).unwrap().archetype;
    let sub = SubWorld {
        components: dungeon_ecs::access::ComponentAccess::All,
        archetypes: Some(dungeon_ecs::subworld::ArchetypeAccess::Only(vec![arch_a])),
    };
    let result = position_query().run(&world, &sub).unwrap();
    assert_eq!(result, vec![a]);
    let _ = b;
}

#[test]
fn query_denied_without_read_access() {
    let mut world = World::new();
    let _ = world.push(sample_row(1, 1, 1));
    let (_, right) = SubWorld::full().split(write_request(POSITION_TYPE)).unwrap();
    // the remainder lost positions entirely, so the query fails whole
    assert_eq!(position_query().run(&world, &right).unwrap_err(), Error::AccessDenied);
}

#[test]
fn subworld_split_propagates_archetype_scope() {
    let mut world = World::new();
    let a = world.push(sample_row(1, 1, 1));
    let arch_a = world.locate(a).unwrap().archetype;
    let scoped = SubWorld {
        components: dungeon_ecs::access::ComponentAccess::All,
        archetypes: Some(dungeon_ecs::subworld::ArchetypeAccess::Only(vec![arch_a + 1])),
    };
    let (left, _) = scoped.split(read_request(POSITION_TYPE)).unwrap();
    // the entity's archetype is outside the inherited scope
    assert_eq!(left.entry_ref(&world, a).unwrap_err(), Error::AccessDenied);
}

#[test]
fn filter_excludes_types() {
    let mut world = World::new();
    let lone = world.push(vec![Component::Position(Point { x: 0, y: 0 })]);
    let _paired = world.push(sample_row(1, 1, 1));
    let mut reads = Vec::new();
    reads.push(POSITION_TYPE);
    let mut excluded = Vec::new();
    excluded.push(HEALTH_TYPE);
    let q = Query::new(SystemView {
        reads,
        writes: Vec::new(),
        filter: EntityFilter { required: Vec::new(), excluded },
    });
    let result = q.run(&world, &SubWorld::full()).unwrap();
    assert_eq!(result, vec![lone]);
}

#[test]
fn filters_compose_by_conjunction() {
    let both = EntityFilter::component(POSITION_TYPE).and(&EntityFilter::component(HEALTH_TYPE));
    assert!(both.required.contains(&POSITION_TYPE));
    assert!(both.required.contains(&HEALTH_TYPE));
    assert!(both.excluded.is_empty());
}

#[test]
fn view_derives_its_permissions() {
    let mut reads = Vec::new();
    reads.push(NAME_TYPE);
    let mut writes = Vec::new();
    writes.push(POSITION_TYPE);
    let view = SystemView { reads, writes, filter: EntityFilter::any() };
    let p = view.requires_permissions();
    // a declared write implies read access to the same type
    assert!(p.reads.contains(&NAME_TYPE));
    assert!(p.reads.contains(&POSITION_TYPE));
    assert!(p.writes.contains(&POSITION_TYPE));
    assert!(!p.writes.contains(&NAME_TYPE));
}

#[test]
fn view_validation_against_access() {
    let mut reads = Vec::new();
    reads.push(POSITION_TYPE);
    let mut writes = Vec::new();
    writes.push(HEALTH_TYPE);
    let view = SystemView { reads, writes, filter: EntityFilter::any() };
    assert!(view.validate_access(&dungeon_ecs::access::ComponentAccess::All));
    // a grant of the read type alone is not enough for the declared write
    assert!(!view.validate_access(&dungeon_ecs::access::ComponentAccess::Allow(read_request(
        POSITION_TYPE
    ))));
    let (holds_both, _) = SubWorld::full()
        .split({
            let mut p = PermissionSet::new();
            p.push_read(POSITION_TYPE);
            p.push(HEALTH_TYPE);
            p
        })
        .unwrap();
    assert!(view.validate_access(&holds_both.components));
}

#[test]
fn world_entries_have_full_access() {
    let mut world = World::new();
    let e = world.push(sample_row(2, 3, 4));
    let entry = world.entry_ref(e).unwrap();
    assert!(entry.get_component(&world, POSITION_TYPE).is_ok());
    assert!(entry.get_component(&world, HEALTH_TYPE).is_ok());
    let entry = world.entry_mut(e).unwrap();
    assert!(entry
        .set_component(&mut world, Component::Health(Health { current: 1, max: 4 }))
        .is_ok());
    match world.get_component(e, HEALTH_TYPE) {
        Some(Component::Health(h)) => assert_eq!(h.current, 1),
        other => panic!("unexpected component: {:?}", other),
    }
    // a dead entity yields no entry
    assert!(world.remove(e));
    assert_eq!(world.entry_ref(e).unwrap_err(), Error::AccessDenied);
}
