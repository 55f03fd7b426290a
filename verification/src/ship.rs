//! The player's ship.

use vstd::prelude::*;

verus! {

/// Marks the entity that the player steers.
#[derive(Clone, Copy, Debug, PartialEq, Eq, Structural)]
pub struct Ship;

} // verus!
