//! The camera that follows the ship.

use vstd::prelude::*;

verus! {

/// Marks the camera through which the player sees the world.
#[derive(Clone, Copy, Debug, PartialEq, Eq, Structural)]
pub struct MainCamera;

} // verus!
