//! Frame animations requested of the renderer.

use vstd::prelude::*;
use crate::entity::Entity;
use crate::world::{lemma_assemble_update, Tags, World};

verus! {

/// A loop over the sprite-sheet frames `first..=last`, shown at
/// `frames_per_second`.
#[derive(Clone, Copy, Debug, PartialEq, Eq, Structural)]
pub struct Animation {
    pub first: usize,
    pub last: usize,
    pub frames_per_second: u32,
}

/// The two-frame blink shown while the ship charges.
pub open spec fn blinking() -> Animation {
    Animation { first: 0, last: 1, frames_per_second: 7 }
}

impl Animation {
    /// A loop over the frames `first..=last` at `frames_per_second`.
    pub fn from_indices(first: usize, last: usize, frames_per_second: u32) -> (a: Animation)
        ensures
            a == (Animation { first, last, frames_per_second }),
    {
        Animation { first, last, frames_per_second }
    }

    /// The two-frame blink shown while the ship charges.
    pub fn blinking() -> (a: Animation)
        ensures
            a == blinking(),
    {
        Animation { first: 0, last: 1, frames_per_second: 7 }
    }
}

/// The world after `ship`, if alive, was given the blink.
pub open spec fn with_blinking(m: Map<Entity, Tags>, ship: Entity) -> Map<Entity, Tags> {
    if m.contains_key(ship) {
        m.insert(ship, Tags { animation: Some(blinking()), ..m[ship] })
    } else {
        m
    }
}

/// Gives `ship` the blink, in place of any animation it had.
pub fn add_blinking_animation(world: &mut World, ship: Entity)
    ensures
        final(world)@ == with_blinking(old(world)@, ship),
        final(world).order() == old(world).order(),
{
    proof {
        use_type_invariant(&*world);
    }
    if let Some(i) = world.index_of(ship) {
        world.tags[i].animation = Some(Animation::blinking());
        proof {
            lemma_assemble_update(
                old(world).entities@,
                old(world).tags@,
                i as int,
                world.tags@[i as int],
            );
        }
    }
}

} // verus!
