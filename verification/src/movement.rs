//! Steering the ship from the keyboard.

use vstd::prelude::*;
use crate::entity::Entity;
use crate::physics::Velocity;
use crate::world::{lemma_assemble_pointwise, Tags, World};

verus! {

/// How fast an entity moves, in whole world units per second.
#[derive(Clone, Copy, Debug, PartialEq, Eq, Structural)]
pub struct Speed(pub i32);

/// `speed + by`, held inside the range of speeds.
pub open spec fn shifted(speed: int, by: int) -> int {
    if speed + by > i32::MAX {
        i32::MAX as int
    } else if speed + by < i32::MIN {
        i32::MIN as int
    } else {
        speed + by
    }
}

impl Speed {
    /// This speed changed by `by`, held inside the range of speeds.
    pub fn shifted(self, by: i32) -> (s: Speed)
        ensures
            s.0 == shifted(self.0 as int, by as int),
    {
        let sum: i64 = self.0 as i64 + by as i64;
        if sum > i32::MAX as i64 {
            Speed(i32::MAX)
        } else if sum < i32::MIN as i64 {
            Speed(i32::MIN)
        } else {
            Speed(sum as i32)
        }
    }
}

/// The movement keys that are held down.
#[derive(Clone, Copy, Debug, PartialEq, Eq, Structural)]
pub struct MoveKeys {
    pub up: bool,
    pub down: bool,
    pub left: bool,
    pub right: bool,
}

/// A direction of the plane by its two components.
#[derive(Clone, Copy, Debug, PartialEq, Eq, Structural)]
pub struct Direction {
    pub x: i8,
    pub y: i8,
}

/// What one held key adds to a component.
pub open spec fn push(held: bool) -> int {
    if held {
        1
    } else {
        0
    }
}

/// The direction `d` after the held keys pushed it: up and right count
/// positive, down and left negative.
pub open spec fn pushed(d: Direction, keys: MoveKeys) -> Direction {
    Direction {
        x: (d.x - push(keys.left) + push(keys.right)) as i8,
        y: (d.y + push(keys.up) - push(keys.down)) as i8,
    }
}

/// The velocity that the held keys ask of a ship of the given speed: along
/// the direction that the keys add up to. Where they cancel out, or none is
/// held, that direction has no length and the ship does not move.
pub open spec fn keyed_velocity(keys: MoveKeys, speed: i32) -> Velocity {
    let d = pushed(Direction { x: 0, y: 0 }, keys);
    Velocity::Heading { x: d.x, y: d.y, speed }
}

/// `t` steered by the keys, where it is a ship with a speed and a velocity.
pub open spec fn keyed(t: Tags, keys: MoveKeys) -> Tags {
    match (t.ship, t.speed, t.velocity) {
        (Some(_), Some(Speed(speed)), Some(_)) => Tags {
            velocity: Some(keyed_velocity(keys, speed)),
            ..t
        },
        _ => t,
    }
}

/// The world after every ship has been steered by the keys.
pub open spec fn after_movement(m: Map<Entity, Tags>, keys: MoveKeys) -> Map<Entity, Tags> {
    Map::new(|e: Entity| m.contains_key(e), |e: Entity| keyed(m[e], keys))
}

/// Lets each held key push `direction` by one.
fn handle_keyboard_input(keyboard_input: &MoveKeys, direction: &mut Direction)
    requires
        i8::MIN < old(direction).x < i8::MAX,
        i8::MIN < old(direction).y < i8::MAX,
    ensures
        *final(direction) == pushed(*old(direction), *keyboard_input),
        final(direction).x == old(direction).x - push(keyboard_input.left) + push(
            keyboard_input.right,
        ),
        final(direction).y == old(direction).y + push(keyboard_input.up) - push(
            keyboard_input.down,
        ),
{
    if keyboard_input.up {
        direction.y = direction.y + 1;
    }
    if keyboard_input.down {
        direction.y = direction.y - 1;
    }
    if keyboard_input.left {
        direction.x = direction.x - 1;
    }
    if keyboard_input.right {
        direction.x = direction.x + 1;
    }
}

/// Steers every ship by the held keys: along the direction they add up to,
/// at the ship's own speed. Only the ship's movement is set, not its turning.
pub fn movement_input(world: &mut World, keyboard_input: &MoveKeys)
    ensures
        final(world)@ == after_movement(old(world)@, *keyboard_input),
        final(world).order() == old(world).order(),
{
    proof {
        use_type_invariant(&*world);
    }
    let n = world.tags.len();
    let mut i: usize = 0;
    while i < n
        invariant
            i <= n,
            n == world.tags@.len(),
            world.entities@ == old(world).entities@,
            world.entities@.no_duplicates(),
            world.tags@.len() == old(world).tags@.len(),
            world.entities@.len() == n,
            forall|k: int|
                0 <= k < i ==> world.tags@[k] == keyed(old(world).tags@[k], *keyboard_input),
            forall|k: int| i <= k < n ==> world.tags@[k] == old(world).tags@[k],
        decreases n - i,
    {
        if world.tags[i].ship.is_some() && world.tags[i].velocity.is_some() {
            if let Some(Speed(speed)) = world.tags[i].speed {
                let mut direction = Direction { x: 0, y: 0 };
                handle_keyboard_input(keyboard_input, &mut direction);
                world.tags[i].velocity = Some(
                    Velocity::Heading { x: direction.x, y: direction.y, speed },
                );
            }
        }
        i += 1;
    }
    proof {
        let before = old(world)@;
        let after = world@;
        assert forall|e: Entity| before.contains_key(e) implies after.contains_key(e) && after[e]
            == keyed(before[e], *keyboard_input) by {
            lemma_assemble_pointwise(world.entities@, old(world).tags@, world.tags@, e);
        }
    }
}

} // verus!
