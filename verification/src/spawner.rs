//! Creation of the game's entities: the player and the wandering monsters.

use vstd::prelude::*;
use vstd::string::StringExecFns;
use crate::components::Color;
use crate::components::ColorPair;
use crate::components::Component;
use crate::components::Health;
use crate::components::Point;
use crate::components::Render;
use crate::components::black;
use crate::components::to_cp437;
use crate::components::white;
use crate::world::Entity;
use crate::world::World;
use crate::world::distinct_types;

verus! {

/// The components a freshly spawned player carries.
pub open spec fn player_row(pos: Point) -> Seq<Component> {
    seq![
        Component::Player,
        Component::Position(pos),
        Component::Render(
            Render {
                color: ColorPair {
                    fg: Color { r: 255, g: 255, b: 255 },
                    bg: Color { r: 0, g: 0, b: 0 },
                },
                glyph: 64,
            },
        ),
        Component::Health(Health { current: 20, max: 20 }),
    ]
}

/// Creates the player at `pos`, with full health and the `@` glyph drawn
/// white on black.
pub fn spawn_player(ecs: &mut World, pos: Point)
    requires
        old(ecs).wf(),
    ensures
        final(ecs).wf(),
        exists|e: Entity|
            {
                &&& !old(ecs).has_entity(e)
                &&& #[trigger] final(ecs).has_entity(e)
                &&& final(ecs).row_of(e) == player_row(pos)
                &&& final(ecs).same_except(*old(ecs), e)
            },
{
    let mut components: Vec<Component> = Vec::new();
    components.push(Component::Player);
    components.push(Component::Position(pos));
    components.push(
        Component::Render(
            Render { color: ColorPair { fg: white(), bg: black() }, glyph: to_cp437('@') },
        ),
    );
    components.push(Component::Health(Health { current: 20, max: 20 }));
    proof {
        assert(components@ =~= player_row(pos));
        assert(distinct_types(components@));
    }
    let e = ecs.push(components);
    proof {
        assert(!old(ecs).has_entity(e) && ecs.has_entity(e) && ecs.row_of(e) == player_row(pos)
            && ecs.same_except(*old(ecs), e));
    }
}

/// The hit points of the monster a roll produces.
pub open spec fn monster_hp(roll: int) -> int {
    if 1 <= roll <= 7 {
        1
    } else {
        4
    }
}

/// The name of the monster a roll produces.
pub open spec fn monster_name(roll: int) -> Seq<char> {
    if 1 <= roll <= 7 {
        "Goblin"@
    } else {
        "Orc"@
    }
}

/// The glyph of the monster a roll produces.
pub open spec fn monster_glyph(roll: int) -> int {
    if 1 <= roll <= 7 {
        103
    } else {
        111
    }
}

/// The components a freshly spawned monster carries, for this roll.
pub open spec fn monster_row_ok(row: Seq<Component>, pos: Point, roll: int) -> bool {
    &&& row.len() == 6
    &&& row[0] == Component::Enemy
    &&& row[1] == Component::MovingRandomly
    &&& row[2] == Component::Position(pos)
    &&& row[3] == Component::Render(
        Render {
            color: ColorPair {
                fg: Color { r: 255, g: 255, b: 255 },
                bg: Color { r: 0, g: 0, b: 0 },
            },
            glyph: monster_glyph(roll) as u16,
        },
    )
    &&& row[4] == Component::Health(
        Health { current: monster_hp(roll) as i32, max: monster_hp(roll) as i32 },
    )
    &&& row[5] matches Component::Name(n) && n@ == monster_name(roll)
}

/// A goblin's stats: hit points, name and glyph.
pub fn goblin() -> (r: (i32, String, u16))
    ensures
        r.0 == 1,
        r.1@ == "Goblin"@,
        r.2 == 103,
{
    (1, String::from_str("Goblin"), to_cp437('g'))
}

/// An orc's stats: hit points, name and glyph.
pub fn orc() -> (r: (i32, String, u16))
    ensures
        r.0 == 4,
        r.1@ == "Orc"@,
        r.2 == 111,
{
    (4, String::from_str("Orc"), to_cp437('o'))
}

/// Creates a monster at `pos`. The roll, drawn by the caller from `0..10`,
/// picks a goblin for `1..=7` and an orc otherwise.
pub fn spawn_monster(ecs: &mut World, pos: Point, roll: i32)
    requires
        old(ecs).wf(),
        0 <= roll < 10,
    ensures
        final(ecs).wf(),
        exists|e: Entity|
            {
                &&& !old(ecs).has_entity(e)
                &&& #[trigger] final(ecs).has_entity(e)
                &&& monster_row_ok(final(ecs).row_of(e), pos, roll as int)
                &&& final(ecs).same_except(*old(ecs), e)
            },
{
    let p = if 1 <= roll && roll <= 7 {
        goblin()
    } else {
        orc()
    };
    let mut components: Vec<Component> = Vec::new();
    components.push(Component::Enemy);
    components.push(Component::MovingRandomly);
    components.push(Component::Position(pos));
    components.push(
        Component::Render(
            Render { color: ColorPair { fg: white(), bg: black() }, glyph: p.2 },
        ),
    );
    components.push(Component::Health(Health { current: p.0, max: p.0 }));
    components.push(Component::Name(p.1));
    proof {
        assert(monster_row_ok(components@, pos, roll as int));
        assert(distinct_types(components@));
    }
    let e = ecs.push(components);
    proof {
        assert(!old(ecs).has_entity(e) && ecs.has_entity(e) && monster_row_ok(
            ecs.row_of(e),
            pos,
            roll as int,
        ) && ecs.same_except(*old(ecs), e));
    }
}

} // verus!
