use dungeon_ecs::access::ComponentAccess;
use dungeon_ecs::access::Error;
use dungeon_ecs::command_buffer::CommandBuffer;
use dungeon_ecs::command_buffer::WorldOp;
use dungeon_ecs::components::Component;
use dungeon_ecs::components::Point;
use dungeon_ecs::components::WantsToMove;
use dungeon_ecs::components::HEALTH_TYPE;
use dungeon_ecs::components::NAME_TYPE;
use dungeon_ecs::components::POSITION_TYPE;
use dungeon_ecs::components::WANTS_TO_MOVE_TYPE;
use dungeon_ecs::permissions::PermissionSet;
use dungeon_ecs::spawner::goblin;
use dungeon_ecs::spawner::orc;
use dungeon_ecs::spawner::spawn_monster;
use dungeon_ecs::spawner::spawn_player;
use dungeon_ecs::subworld::SubWorld;
use dungeon_ecs::systems::collisions::collisions;
use dungeon_ecs::systems::end_turn::end_turn;
use dungeon_ecs::systems::player_input::player_input;
use dungeon_ecs::systems::player_input::KeyCode;
use dungeon_ecs::systems::tooltips::tooltips;
use dungeon_ecs::turn_state::Element;
use dungeon_ecs::turn_state::TurnState;
use dungeon_ecs::world::Entity;
use dungeon_ecs::world::World;

fn find_with(world: &World, t: u64) -> Vec<Entity> {
    let mut reads = Vec::new();
    reads.push(t);
    let q = dungeon_ecs::query::Query::new(dungeon_ecs::query::SystemView {
        reads,
        writes: Vec::new(),
        filter: dungeon_ecs::query::EntityFilter::any(),
    });
    q.run(world, &SubWorld::full()).unwrap()
}

#[test]
fn end_turn_cycles_phases() {
    let mut s = TurnState::AwaitingInput;
    end_turn(&mut s);
    assert_eq!(s, TurnState::AwaitingInput);
    s = TurnState::PlayerTurn;
    end_turn(&mut s);
    assert_eq!(s, TurnState::MonsterTurn);
    end_turn(&mut s);
    assert_eq!(s, TurnState::AwaitingInput);
}

#[test]
fn element_variants_are_distinct() {
    assert_eq!(Element::Fire, Element::Fire);
    assert_ne!(Element::Water, Element::Grass);
    assert_ne!(Element::Eletric, Element::Fire);
}

#[test]
fn goblin_and_orc_stats() {
    let g = goblin();
    assert_eq!(g.0, 1);
    assert_eq!(g.1, "Goblin");
    assert_eq!(g.2, 103);
    let o = orc();
    assert_eq!(o.0, 4);
    assert_eq!(o.1, "Orc");
    assert_eq!(o.2, 111);
}

#[test]
fn spawn_player_components() {
    let mut world = World::new();
    spawn_player(&mut world, Point { x: 40, y: 25 });
    let found = find_with(&world, POSITION_TYPE);
    assert_eq!(found.len(), 1);
    let e = found[0];
    match world.get_component(e, POSITION_TYPE) {
        Some(Component::Position(p)) => assert_eq!(*p, Point { x: 40, y: 25 }),
        other => panic!("unexpected component: {:?}", other),
    }
    match world.get_component(e, HEALTH_TYPE) {
        Some(Component::Health(h)) => assert_eq!((h.current, h.max), (20, 20)),
        other => panic!("unexpected component: {:?}", other),
    }
    match world.get_component(e, dungeon_ecs::components::RENDER_TYPE) {
        Some(Component::Render(r)) => {
            assert_eq!(r.glyph, 64);
            assert_eq!((r.color.fg.r, r.color.fg.g, r.color.fg.b), (255, 255, 255));
            assert_eq!((r.color.bg.r, r.color.bg.g, r.color.bg.b), (0, 0, 0));
        },
        other => panic!("unexpected component: {:?}", other),
    }
    assert!(world.get_component(e, dungeon_ecs::components::PLAYER_TYPE).is_some());
}

#[test]
fn spawn_monster_rolls() {
    let mut world = World::new();
    // rolls 1..=7 make goblins, everything else an orc
    spawn_monster(&mut world, Point { x: 1, y: 1 }, 3);
    spawn_monster(&mut world, Point { x: 2, y: 2 }, 0);
    spawn_monster(&mut world, Point { x: 3, y: 3 }, 9);
    let found = find_with(&world, NAME_TYPE);
    assert_eq!(found.len(), 3);
    let mut names = Vec::new();
    for e in found {
        match world.get_component(e, NAME_TYPE) {
            Some(Component::Name(n)) => names.push(n.clone()),
            other => panic!("unexpected component: {:?}", other),
        }
    }
    names.sort();
    assert_eq!(names, vec!["Goblin".to_string(), "Orc".to_string(), "Orc".to_string()]);
}

#[test]
fn spawn_monster_goblin_stats() {
    let mut world = World::new();
    spawn_monster(&mut world, Point { x: 1, y: 1 }, 5);
    let e = find_with(&world, NAME_TYPE)[0];
    match world.get_component(e, HEALTH_TYPE) {
        Some(Component::Health(h)) => assert_eq!((h.current, h.max), (1, 1)),
        other => panic!("unexpected component: {:?}", other),
    }
    match world.get_component(e, dungeon_ecs::components::RENDER_TYPE) {
        Some(Component::Render(r)) => assert_eq!(r.glyph, 103),
        other => panic!("unexpected component: {:?}", other),
    }
    assert!(world.get_component(e, dungeon_ecs::components::ENEMY_TYPE).is_some());
    assert!(world
        .get_component(e, dungeon_ecs::components::MOVING_RANDOMLY_TYPE)
        .is_some());
}

#[test]
fn collisions_remove_enemies_on_player() {
    let mut world = World::new();
    spawn_player(&mut world, Point { x: 5, y: 5 });
    spawn_monster(&mut world, Point { x: 5, y: 5 }, 2);
    spawn_monster(&mut world, Point { x: 6, y: 5 }, 2);
    let sub = SubWorld::full();
    let mut buffer = CommandBuffer::new();
    collisions(&world, &sub, &mut buffer).unwrap();
    assert_eq!(buffer.ops.len(), 1);
    buffer.apply(&mut world);
    // only the enemy standing on the player is gone
    let enemies = find_with(&world, dungeon_ecs::components::ENEMY_TYPE);
    assert_eq!(enemies.len(), 1);
    match world.get_component(enemies[0], POSITION_TYPE) {
        Some(Component::Position(p)) => assert_eq!(*p, Point { x: 6, y: 5 }),
        other => panic!("unexpected component: {:?}", other),
    }
    // the player survived its own collision
    assert_eq!(find_with(&world, dungeon_ecs::components::PLAYER_TYPE).len(), 1);
}

#[test]
fn collisions_denied_without_position_access() {
    let world = World::new();
    let sub = SubWorld { components: ComponentAccess::Allow(PermissionSet::new()), archetypes: None };
    let mut buffer = CommandBuffer::new();
    assert_eq!(collisions(&world, &sub, &mut buffer).unwrap_err(), Error::AccessDenied);
    assert!(buffer.ops.is_empty());
}

#[test]
fn player_input_records_movement_intent() {
    let mut world = World::new();
    spawn_player(&mut world, Point { x: 3, y: 4 });
    let sub = SubWorld::full();
    let mut buffer = CommandBuffer::new();
    let mut turn = TurnState::AwaitingInput;
    player_input(&world, &sub, &mut buffer, &Some(KeyCode::Left), &mut turn).unwrap();
    assert_eq!(turn, TurnState::PlayerTurn);
    assert_eq!(buffer.ops.len(), 1);
    let player = find_with(&world, dungeon_ecs::components::PLAYER_TYPE)[0];
    match &buffer.ops[0] {
        WorldOp::Spawn(row) => {
            assert_eq!(row.len(), 1);
            assert_eq!(
                row[0],
                Component::WantsToMove(WantsToMove {
                    entity: player,
                    destination: Point { x: 2, y: 4 },
                })
            );
        },
        other => panic!("unexpected op: {:?}", other),
    }
    // committing the buffer materializes the intent as its own entity
    buffer.apply(&mut world);
    assert_eq!(find_with(&world, WANTS_TO_MOVE_TYPE).len(), 1);
}

#[test]
fn player_input_without_key_does_nothing() {
    let mut world = World::new();
    spawn_player(&mut world, Point { x: 3, y: 4 });
    let sub = SubWorld::full();
    let mut buffer = CommandBuffer::new();
    let mut turn = TurnState::AwaitingInput;
    player_input(&world, &sub, &mut buffer, &None, &mut turn).unwrap();
    assert_eq!(turn, TurnState::AwaitingInput);
    assert!(buffer.ops.is_empty());
}

#[test]
fn player_input_other_key_spawns_zero_move() {
    let mut world = World::new();
    spawn_player(&mut world, Point { x: 3, y: 4 });
    let sub = SubWorld::full();
    let mut buffer = CommandBuffer::new();
    let mut turn = TurnState::AwaitingInput;
    player_input(&world, &sub, &mut buffer, &Some(KeyCode::Other), &mut turn).unwrap();
    assert_eq!(turn, TurnState::PlayerTurn);
    let player = find_with(&world, dungeon_ecs::components::PLAYER_TYPE)[0];
    match &buffer.ops[0] {
        WorldOp::Spawn(row) => assert_eq!(
            row[0],
            Component::WantsToMove(WantsToMove {
                entity: player,
                destination: Point { x: 3, y: 4 },
            })
        ),
        other => panic!("unexpected op: {:?}", other),
    }
}

#[test]
fn tooltips_show_names_and_health() {
    let mut world = World::new();
    // a goblin at map position (7, 7)
    spawn_monster(&mut world, Point { x: 7, y: 7 }, 5);
    // and another monster elsewhere
    spawn_monster(&mut world, Point { x: 1, y: 1 }, 0);
    let sub = SubWorld::full();
    // the mouse at (5, 5) with the camera starting at (2, 2) points at (7, 7)
    let tips = tooltips(&world, &sub, Point { x: 5, y: 5 }, 2, 2).unwrap();
    assert_eq!(tips.len(), 1);
    assert_eq!(tips[0].screen_pos, Point { x: 20, y: 20 });
    assert_eq!(tips[0].name, "Goblin");
    assert_eq!(tips[0].health, Some(1));
}

#[test]
fn tooltips_hide_health_without_access() {
    let mut world = World::new();
    spawn_monster(&mut world, Point { x: 7, y: 7 }, 5);
    // a handle that may read positions and names, but not health
    let mut granted = PermissionSet::new();
    granted.push_read(POSITION_TYPE);
    granted.push_read(NAME_TYPE);
    let sub = SubWorld { components: ComponentAccess::Allow(granted), archetypes: None };
    let tips = tooltips(&world, &sub, Point { x: 5, y: 5 }, 2, 2).unwrap();
    assert_eq!(tips.len(), 1);
    assert_eq!(tips[0].name, "Goblin");
    assert_eq!(tips[0].health, None);
}

#[test]
fn tooltips_skip_entities_off_the_mouse() {
    let mut world = World::new();
    spawn_monster(&mut world, Point { x: 9, y: 9 }, 5);
    let sub = SubWorld::full();
    let tips = tooltips(&world, &sub, Point { x: 5, y: 5 }, 2, 2).unwrap();
    assert!(tips.is_empty());
}
