//! The component types carried by entities, and the plain values they are
//! made of.

use vstd::prelude::*;
use crate::permissions::ComponentTypeId;
use crate::world::Entity;

verus! {

/// Saturating addition on machine integers, clamped to the `i32` range.
pub open spec fn sat_add_i32(a: int, b: int) -> int {
    if a + b > i32::MAX as int {
        i32::MAX as int
    } else if a + b < i32::MIN as int {
        i32::MIN as int
    } else {
        a + b
    }
}

/// Saturating multiplication on machine integers, clamped to the `i32` range.
pub open spec fn sat_mul_i32(a: int, b: int) -> int {
    if a * b > i32::MAX as int {
        i32::MAX as int
    } else if a * b < i32::MIN as int {
        i32::MIN as int
    } else {
        a * b
    }
}

/// Adds two coordinates, saturating at the ends of the `i32` range.
pub fn sat_add(a: i32, b: i32) -> (r: i32)
    ensures
        r as int == sat_add_i32(a as int, b as int),
{
    let s: i64 = a as i64 + b as i64;
    if s > i32::MAX as i64 {
        i32::MAX
    } else if s < i32::MIN as i64 {
        i32::MIN
    } else {
        s as i32
    }
}

/// Multiplies two coordinates, saturating at the ends of the `i32` range.
pub fn sat_mul(a: i32, b: i32) -> (r: i32)
    ensures
        r as int == sat_mul_i32(a as int, b as int),
{
    proof {
        assert(a as int * b as int <= 0x4000_0000_0000_0000 && a as int * b as int
            >= -0x4000_0000_0000_0000) by (nonlinear_arith)
            requires
                -0x8000_0000 <= a as int <= 0x7FFF_FFFF,
                -0x8000_0000 <= b as int <= 0x7FFF_FFFF,
        ;
    }
    let s: i64 = a as i64 * b as i64;
    if s > i32::MAX as i64 {
        i32::MAX
    } else if s < i32::MIN as i64 {
        i32::MIN
    } else {
        s as i32
    }
}

/// A two-dimensional grid position or offset.
#[derive(Clone, Copy, Debug, PartialEq, Eq, Structural)]
pub struct Point {
    pub x: i32,
    pub y: i32,
}

impl Point {
    /// The componentwise saturating sum of two points.
    pub open spec fn spec_add(self, other: Point) -> Point {
        Point {
            x: sat_add_i32(self.x as int, other.x as int) as i32,
            y: sat_add_i32(self.y as int, other.y as int) as i32,
        }
    }

    /// The componentwise saturating product with a scalar.
    pub open spec fn spec_scale(self, k: int) -> Point {
        Point {
            x: sat_mul_i32(self.x as int, k) as i32,
            y: sat_mul_i32(self.y as int, k) as i32,
        }
    }

    pub fn new(x: i32, y: i32) -> (p: Point)
        ensures
            p == (Point { x, y }),
    {
        Point { x, y }
    }

    /// The origin.
    pub fn zero() -> (p: Point)
        ensures
            p == (Point { x: 0i32, y: 0i32 }),
    {
        Point { x: 0, y: 0 }
    }

    /// Componentwise saturating addition.
    pub fn add(&self, other: &Point) -> (p: Point)
        ensures
            p == self.spec_add(*other),
    {
        Point { x: sat_add(self.x, other.x), y: sat_add(self.y, other.y) }
    }

    /// Componentwise saturating multiplication by a scalar.
    pub fn scale(&self, k: i32) -> (p: Point)
        ensures
            p == self.spec_scale(k as int),
    {
        Point { x: sat_mul(self.x, k), y: sat_mul(self.y, k) }
    }
}

/// An RGB colour.
#[derive(Clone, Copy, Debug, PartialEq, Eq, Structural)]
pub struct Color {
    pub r: u8,
    pub g: u8,
    pub b: u8,
}

/// Foreground and background colours of a glyph.
#[derive(Clone, Copy, Debug, PartialEq, Eq, Structural)]
pub struct ColorPair {
    pub fg: Color,
    pub bg: Color,
}

pub fn white() -> (c: Color)
    ensures
        c == (Color { r: 255u8, g: 255u8, b: 255u8 }),
{
    Color { r: 255, g: 255, b: 255 }
}

pub fn black() -> (c: Color)
    ensures
        c == (Color { r: 0u8, g: 0u8, b: 0u8 }),
{
    Color { r: 0, g: 0, b: 0 }
}

/// The glyph index of an ASCII printable character in code page 437, whose
/// glyphs coincide with ASCII over that range.
pub fn to_cp437(c: char) -> (g: u16)
    requires
        32 <= c as u32 <= 126,
    ensures
        g as u32 == c as u32,
{
    (c as u32) as u16
}

/// How an entity is drawn: a glyph and its colours.
#[derive(Clone, Copy, Debug, PartialEq, Eq, Structural)]
pub struct Render {
    pub color: ColorPair,
    pub glyph: u16,
}

/// Hit points, current and maximum.
#[derive(Clone, Copy, Debug, PartialEq, Eq, Structural)]
pub struct Health {
    pub current: i32,
    pub max: i32,
}

/// A deferred movement intent: the entity that wants to move and where to.
#[derive(Clone, Copy, Debug, PartialEq, Eq, Structural)]
pub struct WantsToMove {
    pub entity: Entity,
    pub destination: Point,
}

/// One component value, tagged by its type.
#[derive(Debug, PartialEq)]
pub enum Component {
    /// Marks the player entity.
    Player,
    /// Marks a hostile entity.
    Enemy,
    /// Marks an entity that wanders randomly.
    MovingRandomly,
    /// The entity's position on the map.
    Position(Point),
    /// How the entity is drawn.
    Render(Render),
    /// The entity's hit points.
    Health(Health),
    /// The entity's display name.
    Name(String),
    /// A deferred movement intent.
    WantsToMove(WantsToMove),
}

pub const PLAYER_TYPE: ComponentTypeId = 1;

pub const ENEMY_TYPE: ComponentTypeId = 2;

pub const MOVING_RANDOMLY_TYPE: ComponentTypeId = 3;

pub const POSITION_TYPE: ComponentTypeId = 4;

pub const RENDER_TYPE: ComponentTypeId = 5;

pub const HEALTH_TYPE: ComponentTypeId = 6;

pub const NAME_TYPE: ComponentTypeId = 7;

pub const WANTS_TO_MOVE_TYPE: ComponentTypeId = 8;

impl Component {
    /// The identifier of this component's type.
    pub open spec fn spec_type_id(&self) -> ComponentTypeId {
        match self {
            Component::Player => PLAYER_TYPE,
            Component::Enemy => ENEMY_TYPE,
            Component::MovingRandomly => MOVING_RANDOMLY_TYPE,
            Component::Position(_) => POSITION_TYPE,
            Component::Render(_) => RENDER_TYPE,
            Component::Health(_) => HEALTH_TYPE,
            Component::Name(_) => NAME_TYPE,
            Component::WantsToMove(_) => WANTS_TO_MOVE_TYPE,
        }
    }

    /// Returns the identifier of this component's type.
    #[verifier::when_used_as_spec(spec_type_id)]
    pub fn type_id(&self) -> (t: ComponentTypeId)
        ensures
            t == self.spec_type_id(),
    {
        match self {
            Component::Player => PLAYER_TYPE,
            Component::Enemy => ENEMY_TYPE,
            Component::MovingRandomly => MOVING_RANDOMLY_TYPE,
            Component::Position(_) => POSITION_TYPE,
            Component::Render(_) => RENDER_TYPE,
            Component::Health(_) => HEALTH_TYPE,
            Component::Name(_) => NAME_TYPE,
            Component::WantsToMove(_) => WANTS_TO_MOVE_TYPE,
        }
    }
}

} // verus!
