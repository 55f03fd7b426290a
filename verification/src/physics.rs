//! What is exchanged with the physics engine: contact events coming in,
//! collider shapes and velocities going out.

use vstd::prelude::*;
use crate::entity::Entity;

verus! {

/// A contact between two entities began or ended. The pair is unordered.
#[derive(Clone, Copy, Debug, PartialEq, Eq, Structural)]
pub enum CollisionEvent {
    Started(Entity, Entity),
    Stopped(Entity, Entity),
}

/// A point of the plane, in whole world units.
#[derive(Clone, Copy, Debug, PartialEq, Eq, Structural)]
pub struct Point {
    pub x: i32,
    pub y: i32,
}

/// Shape of the region in which an entity takes part in contacts.
#[derive(Clone, Copy, Debug, PartialEq, Eq, Structural)]
pub enum Collider {
    Ball { radius: u32 },
    Triangle { a: Point, b: Point, c: Point },
}

/// Marks a collider that reports contacts without pushing anything away.
#[derive(Clone, Copy, Debug, PartialEq, Eq, Structural)]
pub struct Sensor;

/// Marks a collider whose contacts are reported as events.
#[derive(Clone, Copy, Debug, PartialEq, Eq, Structural)]
pub struct ActiveEvents;

/// How an entity is to move. The physics side turns a direction into a unit
/// vector (or into nothing, when the direction has no length) and scales it
/// by the speed.
#[derive(Clone, Copy, Debug, PartialEq, Eq, Structural)]
pub enum Velocity {
    /// Brought to rest: neither moving nor turning.
    Zero,
    /// Moving along the direction `(x, y)` at `speed`; turning is left as it
    /// is.
    Heading { x: i8, y: i8, speed: i32 },
    /// Moving straight toward where `target` is at `speed`; turning is left
    /// as it is.
    Toward { target: Entity, speed: i32 },
}

} // verus!
