//! The ship's interaction beam and what it picks up.

use vstd::prelude::*;
use crate::animation::{blinking, Animation};
use crate::entity::Entity;
use crate::level::{holding, Item};
use crate::movement::{shifted, Speed};
use crate::physics::{ActiveEvents, Collider, Point, Sensor};
use crate::world::{
    is_item, lemma_assemble_at, lemma_assemble_pointwise, lemma_assemble_update, Tags, Visibility,
    World,
};

verus! {

/// What the boost adds to the speed of a ship.
pub const BOOST: i32 = 70;

/// Marks the entity that carries the interaction beam.
#[derive(Clone, Copy, Debug, PartialEq, Eq, Structural)]
pub struct InteractLightBeam;

/// The items that the beam currently overlaps, most recently entered last.
#[derive(Debug)]
pub struct UnderBeamItems(pub Vec<Entity>);

/// An item was beamed up from the world.
#[derive(Clone, Copy, Debug, PartialEq, Eq, Structural)]
pub struct BeamUpEvent(pub Entity);

/// The region that the beam covers while it is on.
pub open spec fn beam_shape() -> Collider {
    Collider::Triangle {
        a: Point { x: -55i32, y: 0 },
        b: Point { x: 56, y: 18 },
        c: Point { x: 56, y: -18i32 },
    }
}

/// `t` after the beam was switched on: a beam is shown and takes part in
/// contacts, a ship blinks.
pub open spec fn beam_lit(t: Tags) -> Tags {
    let t1 = if t.beam is Some {
        Tags {
            visibility: Visibility::Visible,
            collider: Some(beam_shape()),
            active_events: Some(ActiveEvents),
            sensor: Some(Sensor),
            ..t
        }
    } else {
        t
    };
    if t1.ship is Some {
        Tags { animation: Some(blinking()), ..t1 }
    } else {
        t1
    }
}

/// `t` after the beam was switched off: a beam is hidden and leaves the
/// contacts, a ship stops blinking.
pub open spec fn beam_dark(t: Tags) -> Tags {
    let t1 = if t.beam is Some {
        Tags { visibility: Visibility::Hidden, collider: None, sensor: None, ..t }
    } else {
        t
    };
    if t1.ship is Some {
        Tags { animation: None, ..t1 }
    } else {
        t1
    }
}

/// `t` after a frame in which the beam button went down, came up, both in
/// that order, or neither.
pub open spec fn beam_switched(t: Tags, pressed: bool, released: bool) -> Tags {
    let t1 = if pressed {
        beam_lit(t)
    } else {
        t
    };
    if released {
        beam_dark(t1)
    } else {
        t1
    }
}

/// The world after the beam button's edges of one frame.
pub open spec fn after_beam_input(m: Map<Entity, Tags>, pressed: bool, released: bool) -> Map<
    Entity,
    Tags,
> {
    Map::new(|e: Entity| m.contains_key(e), |e: Entity| beam_switched(m[e], pressed, released))
}

/// `t` after the boost was switched on: a ship with a speed gains the boost
/// and blinks.
pub open spec fn boost_lit(t: Tags) -> Tags {
    match (t.ship, t.speed) {
        (Some(_), Some(Speed(speed))) => Tags {
            speed: Some(Speed(shifted(speed as int, BOOST as int) as i32)),
            animation: Some(blinking()),
            ..t
        },
        _ => t,
    }
}

/// `t` after the boost was switched off: a ship with a speed loses the boost
/// and stops blinking.
pub open spec fn boost_dark(t: Tags) -> Tags {
    match (t.ship, t.speed) {
        (Some(_), Some(Speed(speed))) => Tags {
            speed: Some(Speed(shifted(speed as int, -BOOST) as i32)),
            animation: None,
            ..t
        },
        _ => t,
    }
}

/// `t` after a frame in which the boost key went down, came up, both in that
/// order, or neither.
pub open spec fn boost_switched(t: Tags, pressed: bool, released: bool) -> Tags {
    let t1 = if pressed {
        boost_lit(t)
    } else {
        t
    };
    if released {
        boost_dark(t1)
    } else {
        t1
    }
}

/// The world after the boost key's edges of one frame.
pub open spec fn after_boost_input(m: Map<Entity, Tags>, pressed: bool, released: bool) -> Map<
    Entity,
    Tags,
> {
    Map::new(|e: Entity| m.contains_key(e), |e: Entity| boost_switched(m[e], pressed, released))
}

/// Whether `e` is a live ship that carries an inventory.
pub open spec fn carries(m: Map<Entity, Tags>, e: Entity) -> bool {
    m.contains_key(e) && m[e].ship is Some && m[e].inventory is Some
}

/// Whether `e` is the one ship that carries an inventory.
pub open spec fn sole_carrier(m: Map<Entity, Tags>, e: Entity) -> bool {
    carries(m, e) && forall|o: Entity| carries(m, o) ==> o == e
}

/// The item that a beam-up command takes and the ship that receives it: the
/// top of the stack, when the command was given, the top is still an item,
/// and exactly one ship carries an inventory.
pub open spec fn beam_up_transfer(m: Map<Entity, Tags>, stack: Seq<Entity>, pressed: bool) -> Option<
    (Entity, Entity),
> {
    if pressed && stack.len() > 0 && is_item(m, stack.last()) && exists|s: Entity|
        sole_carrier(m, s) {
        Some((stack.last(), choose|s: Entity| sole_carrier(m, s)))
    } else {
        None
    }
}

/// Whether `after` is `before` with `item` added to the inventory of `ship`:
/// appended if there was room, dropped if not, and nothing else changed.
pub open spec fn stored(
    before: Map<Entity, Tags>,
    after: Map<Entity, Tags>,
    ship: Entity,
    item: Item,
) -> bool {
    &&& after.dom() == before.dom()
    &&& forall|e: Entity| before.contains_key(e) && e != ship ==> after[e] == before[e]
    &&& before.contains_key(ship)
    &&& before[ship].inventory is Some
    &&& after[ship].inventory is Some
    &&& after[ship] == (Tags { inventory: after[ship].inventory, ..before[ship] })
    &&& after[ship].inventory->0.spec_capacity() == before[ship].inventory->0.spec_capacity()
    &&& after[ship].inventory->0@ == holding(
        before[ship].inventory->0@,
        before[ship].inventory->0.spec_capacity(),
        item,
    )
}

/// Switches the beam on where its button went down and off where it came up.
///
/// Going down, every beam becomes visible and gets its collider, every ship
/// begins to blink. Coming up, every beam is hidden and loses its collider,
/// every ship stops blinking. A frame without an edge changes nothing.
pub fn beam_input(world: &mut World, just_pressed: bool, just_released: bool)
    ensures
        final(world)@ == after_beam_input(old(world)@, just_pressed, just_released),
        final(world).order() == old(world).order(),
{
    proof {
        use_type_invariant(&*world);
    }
    let n = world.tags.len();
    let mut i: usize = 0;
    while i < n
        invariant
            i <= n,
            n == world.tags@.len(),
            world.entities@ == old(world).entities@,
            world.entities@.no_duplicates(),
            world.tags@.len() == old(world).tags@.len(),
            world.entities@.len() == n,
            forall|k: int|
                0 <= k < i ==> world.tags@[k] == beam_switched(
                    old(world).tags@[k],
                    just_pressed,
                    just_released,
                ),
            forall|k: int| i <= k < n ==> world.tags@[k] == old(world).tags@[k],
        decreases n - i,
    {
        let is_beam = world.tags[i].beam.is_some();
        let is_ship = world.tags[i].ship.is_some();
        if just_pressed {
            if is_beam {
                world.tags[i].visibility = Visibility::Visible;
                world.tags[i].collider = Some(
                    Collider::Triangle {
                        a: Point { x: -55, y: 0 },
                        b: Point { x: 56, y: 18 },
                        c: Point { x: 56, y: -18 },
                    },
                );
                world.tags[i].active_events = Some(ActiveEvents);
                world.tags[i].sensor = Some(Sensor);
            }
            if is_ship {
                world.tags[i].animation = Some(Animation::blinking());
            }
        }
        if just_released {
            if is_beam {
                world.tags[i].visibility = Visibility::Hidden;
                world.tags[i].collider = None;
                world.tags[i].sensor = None;
            }
            if is_ship {
                world.tags[i].animation = None;
            }
        }
        i += 1;
    }
    proof {
        let before = old(world)@;
        let after = world@;
        assert forall|e: Entity| before.contains_key(e) implies after.contains_key(e) && after[e]
            == beam_switched(before[e], just_pressed, just_released) by {
            lemma_assemble_pointwise(world.entities@, old(world).tags@, world.tags@, e);
        }
    }
}

/// Switches the boost on where its key went down and off where it came up.
///
/// Going down, every ship gains the boost on its speed and begins to blink.
/// Coming up, every ship loses the boost and stops blinking. Nothing pairs
/// the two edges: each has its effect whenever it comes.
pub fn boost_input(world: &mut World, just_pressed: bool, just_released: bool)
    ensures
        final(world)@ == after_boost_input(old(world)@, just_pressed, just_released),
        final(world).order() == old(world).order(),
{
    proof {
        use_type_invariant(&*world);
    }
    let n = world.tags.len();
    let mut i: usize = 0;
    while i < n
        invariant
            i <= n,
            n == world.tags@.len(),
            world.entities@ == old(world).entities@,
            world.entities@.no_duplicates(),
            world.tags@.len() == old(world).tags@.len(),
            world.entities@.len() == n,
            forall|k: int|
                0 <= k < i ==> world.tags@[k] == boost_switched(
                    old(world).tags@[k],
                    just_pressed,
                    just_released,
                ),
            forall|k: int| i <= k < n ==> world.tags@[k] == old(world).tags@[k],
        decreases n - i,
    {
        if world.tags[i].ship.is_some() {
            if let Some(speed) = world.tags[i].speed {
                let mut speed = speed;
                if just_pressed {
                    speed = speed.shifted(BOOST);
                    world.tags[i].speed = Some(speed);
                    world.tags[i].animation = Some(Animation::blinking());
                }
                if just_released {
                    speed = speed.shifted(-BOOST);
                    world.tags[i].speed = Some(speed);
                    world.tags[i].animation = None;
                }
            }
        }
        i += 1;
    }
    proof {
        let before = old(world)@;
        let after = world@;
        assert forall|e: Entity| before.contains_key(e) implies after.contains_key(e) && after[e]
            == boost_switched(before[e], just_pressed, just_released) by {
            lemma_assemble_pointwise(world.entities@, old(world).tags@, world.tags@, e);
        }
    }
}

/// Position of the one ship that carries an inventory, if there is exactly
/// one.
fn find_sole_carrier(world: &World) -> (found: Option<usize>)
    ensures
        match found {
            Some(i) => i < world.entities@.len() && i < world.tags@.len() && sole_carrier(
                world@,
                world.entities@[i as int],
            ) && world@[world.entities@[i as int]] == world.tags@[i as int],
            None => !exists|s: Entity| sole_carrier(world@, s),
        },
{
    proof {
        use_type_invariant(world);
    }
    let n = world.tags.len();
    let mut first: Option<usize> = None;
    let mut many = false;
    let mut i: usize = 0;
    while i < n
        invariant
            i <= n,
            n == world.tags@.len(),
            n == world.entities@.len(),
            world.entities@.no_duplicates(),
            match first {
                Some(f) => {
                    &&& f < i
                    &&& world.tags@[f as int].ship is Some
                    &&& world.tags@[f as int].inventory is Some
                    &&& forall|k: int|
                        0 <= k < f ==> !(world.tags@[k].ship is Some && world.tags@[k].inventory
                            is Some)
                },
                None => forall|k: int|
                    0 <= k < i ==> !(world.tags@[k].ship is Some && world.tags@[k].inventory
                        is Some),
            },
            many ==> first is Some && exists|k: int|
                first->0 < k < i && world.tags@[k].ship is Some && #[trigger] world.tags@[k].inventory
                    is Some,
            !many && first is Some ==> forall|k: int|
                first->0 < k < i ==> !(world.tags@[k].ship is Some && world.tags@[k].inventory
                    is Some),
        decreases n - i,
    {
        if world.tags[i].ship.is_some() && world.tags[i].inventory.is_some() {
            if first.is_some() {
                many = true;
            } else {
                first = Some(i);
            }
        }
        i += 1;
    }
    match first {
        Some(f) => {
            if many {
                proof {
                    let k = choose|k: int|
                        f < k < n && world.tags@[k].ship is Some && #[trigger] world.tags@[k].inventory
                            is Some;
                    lemma_assemble_at(world.entities@, world.tags@, f as int);
                    lemma_assemble_at(world.entities@, world.tags@, k);
                    assert(carries(world@, world.entities@[f as int]));
                    assert(carries(world@, world.entities@[k]));
                }
                None
            } else {
                proof {
                    lemma_assemble_at(world.entities@, world.tags@, f as int);
                    assert forall|o: Entity| carries(world@, o) implies o == world.entities@[f as int] by {
                        lemma_assemble_pointwise(world.entities@, world.tags@, world.tags@, o);
                    }
                }
                Some(f)
            }
        },
        None => {
            proof {
                assert forall|s: Entity| !carries(world@, s) by {
                    if world@.contains_key(s) {
                        lemma_assemble_pointwise(world.entities@, world.tags@, world.tags@, s);
                    }
                }
            }
            None
        },
    }
}

/// Carries out a beam-up command.
///
/// Without the command, or with nothing under the beam, nothing happens.
/// Otherwise the item on top of the stack leaves the stack. If it is still an
/// item, and exactly one ship carries an inventory, a copy of the item's data
/// goes to that inventory (and is dropped there if the inventory is full),
/// and the event that names the item is handed back.
pub fn beam_up(just_pressed: bool, world: &mut World, under_beam: &mut UnderBeamItems) -> (event:
    Option<BeamUpEvent>)
    ensures
        final(world).order() == old(world).order(),
        final(under_beam).0@ == if just_pressed && old(under_beam).0@.len() > 0 {
            old(under_beam).0@.drop_last()
        } else {
            old(under_beam).0@
        },
        match beam_up_transfer(old(world)@, old(under_beam).0@, just_pressed) {
            Some((item, ship)) => event == Some(BeamUpEvent(item)) && stored(
                old(world)@,
                final(world)@,
                ship,
                old(world)@[item].item->0,
            ),
            None => event is None && final(world)@ == old(world)@,
        },
{
    proof {
        use_type_invariant(&*world);
    }
    if !just_pressed || under_beam.0.len() == 0 {
        return None;
    }
    let beamed = under_beam.0.pop().unwrap();
    let item = match world.get(beamed) {
        Some(tags) => match &tags.item {
            Some(item) => item.clone(),
            None => {
                return None;
            },
        },
        None => {
            return None;
        },
    };
    match find_sole_carrier(world) {
        Some(i) => {
            match &mut world.tags[i].inventory {
                Some(inventory) => {
                    inventory.add(&item);
                },
                None => {},
            }
            proof {
                lemma_assemble_update(
                    old(world).entities@,
                    old(world).tags@,
                    i as int,
                    world.tags@[i as int],
                );
            }
            Some(BeamUpEvent(beamed))
        },
        None => None,
    }
}

/// The beam-up command takes the item that came under the beam last:
/// whatever lies below it on the stack, and wherever one ship carries an
/// inventory, the item on top is the one that is transferred.
pub proof fn lemma_last_in_first_out(m: Map<Entity, Tags>, stack: Seq<Entity>, item: Entity)
    requires
        is_item(m, item),
        exists|s: Entity| sole_carrier(m, s),
    ensures
        match beam_up_transfer(m, stack.push(item), true) {
            Some((taken, ship)) => taken == item && sole_carrier(m, ship),
            None => false,
        },
        stack.push(item).drop_last() == stack,
{
}

} // verus!
