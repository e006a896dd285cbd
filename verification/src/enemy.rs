//! Hostile entities, which follow the flow field.
use vstd::prelude::*;
use crate::coords::{cell_of, WORLD_MAX, WORLD_MIN};
use crate::direction::Direction;
use crate::grid::{GridMap, GridSpace};

verus! {

/// A hostile entity.  Position, health and size are in fixed point; speed
/// is in world units per second.
#[derive(Clone, Copy, Debug, PartialEq, Eq)]
pub struct Enemy {
    pub health: i64,
    pub position: (i64, i64),
    pub size: i64,
    pub rotation: Direction,
    pub speed: u32,
    pub building_hit: Option<u32>,
}

/// The box around an entity within which a click picks it.
#[derive(Clone, Copy, Debug, PartialEq, Eq)]
pub struct Hitbox {
    pub width: i64,
    pub height: i64,
    pub bottom_left: (i64, i64),
}

/// Width of the outline that an entity is drawn with, in fixed point.
pub const STROKE_WIDTH: i64 = 2_000;

/// The side of the box around an entity of size `size`: two and a half
/// times the size with its outline, rounded down.
pub open spec fn hitbox_side(size: i64) -> int {
    (size + STROKE_WIDTH) * 5 / 2
}

/// How far the box around an entity of size `size` reaches to the left of
/// and below its position: one and a quarter times the size, rounded down.
pub open spec fn hitbox_reach(size: i64) -> int {
    size * 5 / 4
}

impl Hitbox {
    /// Whether the point `(x, y)` lies inside the box, its edges excluded.
    pub open spec fn holds(self, x: i64, y: i64) -> bool {
        &&& self.bottom_left.0 < x < self.bottom_left.0 + self.width
        &&& self.bottom_left.1 < y < self.bottom_left.1 + self.height
    }

    /// Whether the point `(x, y)` lies inside the box, its edges excluded.
    pub fn contains(&self, x: i64, y: i64) -> (inside: bool)
        ensures
            inside == self.holds(x, y),
    {
        let right = self.bottom_left.0 as i128 + self.width as i128;
        let top = self.bottom_left.1 as i128 + self.height as i128;
        self.bottom_left.0 < x && (x as i128) < right && self.bottom_left.1 < y && (y as i128)
            < top
    }
}

/// `v` divided by `d`, which is 2 or 4, rounded down.
fn floor_div(v: i128, d: i128) -> (q: i128)
    requires
        d == 2 || d == 4,
        -0x4000_0000_0000_0000_0000 <= v <= 0x4000_0000_0000_0000_0000,
    ensures
        q == v / d,
{
    if v >= 0 {
        v / d
    } else {
        -((-v + d - 1) / d)
    }
}

/// `v`, held to what an `i64` can take.
fn clamp(v: i128) -> (held: i64)
    ensures
        held == clamped(v as int),
{
    if v < i64::MIN as i128 {
        i64::MIN
    } else if v > i64::MAX as i128 {
        i64::MAX
    } else {
        v as i64
    }
}

/// The distance, in fixed point, that an entity of speed `speed` covers in
/// `elapsed_ms` milliseconds, held to what an `i64` can take.
pub open spec fn travel(speed: u32, elapsed_ms: u32) -> int {
    if speed * elapsed_ms > i64::MAX {
        i64::MAX as int
    } else {
        speed * elapsed_ms
    }
}

/// `v`, held to what an `i64` can take.
pub open spec fn clamped(v: int) -> int {
    if v < i64::MIN {
        i64::MIN as int
    } else if v > i64::MAX {
        i64::MAX as int
    } else {
        v
    }
}

/// `position` moved by `distance` in `direction`, each coordinate held to
/// what an `i64` can take.
pub open spec fn shifted(position: (i64, i64), direction: Direction, distance: int) -> (i64, i64) {
    (
        clamped(position.0 + direction.dx() * distance) as i64,
        clamped(position.1 + direction.dy() * distance) as i64,
    )
}

/// The distance covered at `speed` in `elapsed_ms` milliseconds.
pub fn distance_covered(speed: u32, elapsed_ms: u32) -> (distance: i64)
    ensures
        distance == travel(speed, elapsed_ms),
        distance >= 0,
{
    assert(0 <= speed * elapsed_ms <= 0xffff_ffff * 0xffff_ffff) by (nonlinear_arith)
        requires
            0 <= speed <= 0xffff_ffff,
            0 <= elapsed_ms <= 0xffff_ffff,
    ;
    let product: u64 = (speed as u64) * (elapsed_ms as u64);
    if product > i64::MAX as u64 {
        i64::MAX
    } else {
        product as i64
    }
}

/// `position` moved by `distance` in `direction`.
pub fn shift(position: (i64, i64), direction: Direction, distance: i64) -> (moved: (i64, i64))
    requires
        distance >= 0,
    ensures
        moved == shifted(position, direction, distance as int),
{
    match direction {
        Direction::Up => (position.0, forwards(position.1, distance)),
        Direction::Left => (backwards(position.0, distance), position.1),
        Direction::Right => (forwards(position.0, distance), position.1),
        Direction::Down => (position.0, backwards(position.1, distance)),
    }
}

/// `coord` moved up by `distance`, held to what an `i64` can take.
fn forwards(coord: i64, distance: i64) -> (moved: i64)
    requires
        distance >= 0,
    ensures
        moved == clamped(coord + distance),
{
    if coord > i64::MAX - distance {
        i64::MAX
    } else {
        coord + distance
    }
}

/// `coord` moved down by `distance`, held to what an `i64` can take.
fn backwards(coord: i64, distance: i64) -> (moved: i64)
    requires
        distance >= 0,
    ensures
        moved == clamped(coord - distance),
{
    if coord < i64::MIN + distance {
        i64::MIN
    } else {
        coord - distance
    }
}

impl Enemy {
    /// The entity after a tick of `elapsed_ms` milliseconds spent on a cell
    /// that holds `space`.  On a cell with a direction it moves that way and
    /// faces it.  On an occupied cell it has reached the structure and
    /// records which.  On a cell with neither it stalls and faces up.
    pub open spec fn stepped(self, space: GridSpace, elapsed_ms: u32) -> Enemy {
        match space.direction {
            Some(direction) => Enemy {
                position: shifted(self.position, direction, travel(self.speed, elapsed_ms)),
                rotation: direction,
                ..self
            },
            None => match space.building {
                Some(info) => Enemy { building_hit: Some(info.id), ..self },
                None => Enemy { rotation: Direction::Up, ..self },
            },
        }
    }

    /// Whether an entity on a cell that holds `space` has reached a
    /// structure.
    pub open spec fn arrives(space: GridSpace) -> bool {
        space.direction is None && space.building is Some
    }

    /// The cell of `field` that the entity stands on.
    pub open spec fn standing_on(self, field: Seq<Seq<GridSpace>>) -> GridSpace {
        field[cell_of(self.position.0 as int)][cell_of(self.position.1 as int)]
    }

    /// The entity that enters the battlefield for a draw of `ratio`
    /// thousandths, a side from 1 to 4 and a sign: the larger the ratio, the
    /// healthier and larger the entity and the farther from the middle of
    /// its side it stands.  Side 1 is the left edge, 2 the right, 3 the
    /// lower, 4 the upper.
    pub open spec fn spawned(ratio: u32, side: i8, negate: bool) -> Enemy {
        let along = if negate {
            -(500 * ratio)
        } else {
            500 * ratio
        };
        Enemy {
            health: (100 * (ratio + 500)) as i64,
            position: if side == 1 {
                (WORLD_MIN, along as i64)
            } else if side == 2 {
                (WORLD_MAX, along as i64)
            } else if side == 3 {
                (along as i64, WORLD_MIN)
            } else {
                (along as i64, WORLD_MAX)
            },
            size: (20 * (ratio + 500)) as i64,
            rotation: Direction::Up,
            speed: 15,
            building_hit: None,
        }
    }

    /// The entity that enters the battlefield for the given draw.
    pub fn spawn(ratio: u32, side: i8, negate: bool) -> (enemy: Enemy)
        requires
            ratio < 1000,
            1 <= side <= 4,
        ensures
            enemy == Enemy::spawned(ratio, side, negate),
    {
        let ratio = ratio as i64;
        let along = if negate {
            -(500 * ratio)
        } else {
            500 * ratio
        };
        let position = match side {
            1 => (WORLD_MIN, along),
            2 => (WORLD_MAX, along),
            3 => (along, WORLD_MIN),
            _ => (along, WORLD_MAX),
        };
        Enemy::new(100 * (ratio + 500), position, 20 * (ratio + 500), 15)
    }

    /// The box around the entity within which a click picks it, each of its
    /// numbers held to what an `i64` can take.
    pub open spec fn hitbox(self) -> Hitbox {
        Hitbox {
            width: clamped(hitbox_side(self.size)) as i64,
            height: clamped(hitbox_side(self.size)) as i64,
            bottom_left: (
                clamped(self.position.0 - hitbox_reach(self.size)) as i64,
                clamped(self.position.1 - hitbox_reach(self.size)) as i64,
            ),
        }
    }

    /// The box around the entity within which a click picks it.
    pub fn get_hitbox(&self) -> (hitbox: Hitbox)
        ensures
            hitbox == self.hitbox(),
    {
        let side = clamp(floor_div((self.size as i128 + STROKE_WIDTH as i128) * 5, 2));
        let reach = floor_div(self.size as i128 * 5, 4);
        Hitbox {
            width: side,
            height: side,
            bottom_left: (
                clamp(self.position.0 as i128 - reach),
                clamp(self.position.1 as i128 - reach),
            ),
        }
    }

    /// A new entity at `position`, facing up, that has hit no structure.
    pub fn new(health: i64, position: (i64, i64), size: i64, speed: u32) -> (enemy: Enemy)
        ensures
            enemy == (Enemy {
                health,
                position,
                size,
                rotation: Direction::Up,
                speed,
                building_hit: None,
            }),
    {
        Enemy { health, position, size, rotation: Direction::Up, speed, building_hit: None }
    }

    /// Moves the entity for a tick of `elapsed_ms` milliseconds and says
    /// whether it has reached a structure.  The entity reads the cell it
    /// stands on.
    pub fn reach_base_check(&mut self, elapsed_ms: u32, map: &GridMap) -> (reached: bool)
        requires
            map.wf(),
        ensures
            *final(self) == old(self).stepped(old(self).standing_on(map@), elapsed_ms),
            reached == Enemy::arrives(old(self).standing_on(map@)),
    {
        let cell = GridMap::convert_position_to_grid_position(self.position);
        let space = map.cell_at(cell.0, cell.1);
        match space.direction {
            Some(direction) => {
                let distance = distance_covered(self.speed, elapsed_ms);
                self.position = shift(self.position, direction, distance);
                self.rotation = direction;
                false
            },
            None => match space.building {
                Some(info) => {
                    self.building_hit = Some(info.id);
                    true
                },
                None => {
                    self.rotation = Direction::Up;
                    false
                },
            },
        }
    }
}

} // verus!
