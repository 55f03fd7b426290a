//! Hostile creatures pursuing the ship.

use vstd::prelude::*;
use crate::entity::Entity;
use crate::movement::Speed;
use crate::physics::{CollisionEvent, Velocity};
use crate::world::{is_ship, lemma_assemble_pointwise, lemma_assemble_update, Tags, World};

verus! {

/// Carried by a creature while it pursues the ship named inside.
#[derive(Clone, Copy, Debug, PartialEq, Eq, Structural)]
pub struct Aggro(pub Entity);

/// The creature whose aggro range `e` is: the parent of `e`, when `e` is a
/// live aggro range that has one.
pub open spec fn range_owner(m: Map<Entity, Tags>, e: Entity) -> Option<Entity> {
    if m.contains_key(e) && m[e].aggro_range is Some {
        m[e].parent
    } else {
        None
    }
}

/// The ship and the creature that a contact between `a` and `b` brings
/// together: one side is a ship, the other the aggro range of the creature.
pub open spec fn aggro_pair(m: Map<Entity, Tags>, a: Entity, b: Entity) -> Option<
    (Entity, Entity),
> {
    if is_ship(m, a) && range_owner(m, b) is Some {
        Some((a, range_owner(m, b)->0))
    } else if is_ship(m, b) && range_owner(m, a) is Some {
        Some((b, range_owner(m, a)->0))
    } else {
        None
    }
}

/// The world after `creature`, if alive, began to pursue `ship`.
pub open spec fn provoked(m: Map<Entity, Tags>, creature: Entity, ship: Entity) -> Map<
    Entity,
    Tags,
> {
    if m.contains_key(creature) {
        m.insert(creature, Tags { aggro: Some(Aggro(ship)), ..m[creature] })
    } else {
        m
    }
}

/// The world after `creature`, if alive, gave up its pursuit and stopped.
pub open spec fn calmed(m: Map<Entity, Tags>, creature: Entity) -> Map<Entity, Tags> {
    if m.contains_key(creature) {
        m.insert(creature, Tags { aggro: None, velocity: Some(Velocity::Zero), ..m[creature] })
    } else {
        m
    }
}

/// The world after one contact event, as far as pursuit goes.
pub open spec fn aggro_step(m: Map<Entity, Tags>, event: CollisionEvent) -> Map<Entity, Tags> {
    match event {
        CollisionEvent::Started(a, b) => match aggro_pair(m, a, b) {
            Some((ship, creature)) => provoked(m, creature, ship),
            None => m,
        },
        CollisionEvent::Stopped(a, b) => match aggro_pair(m, a, b) {
            Some((_, creature)) => calmed(m, creature),
            None => m,
        },
    }
}

/// The world after the contact events of `events`, in order, as far as
/// pursuit goes.
pub open spec fn aggro_after(m: Map<Entity, Tags>, events: Seq<CollisionEvent>) -> Map<
    Entity,
    Tags,
>
    decreases events.len(),
{
    if events.len() == 0 {
        m
    } else {
        aggro_step(aggro_after(m, events.drop_last()), events.last())
    }
}

/// `t` steered toward its target, where it pursues one that is alive in `m`
/// and has a speed and a velocity to steer with.
pub open spec fn steered(m: Map<Entity, Tags>, t: Tags) -> Tags {
    match (t.aggro, t.speed, t.velocity) {
        (Some(Aggro(target)), Some(Speed(speed)), Some(_)) => if m.contains_key(target) {
            Tags { velocity: Some(Velocity::Toward { target, speed }), ..t }
        } else {
            t
        },
        _ => t,
    }
}

/// The world after every pursuing creature has been steered.
pub open spec fn pursuit(m: Map<Entity, Tags>) -> Map<Entity, Tags> {
    Map::new(|e: Entity| m.contains_key(e), |e: Entity| steered(m, m[e]))
}

/// The creature whose aggro range `e` is, if any.
fn owner_of_range(world: &World, e: Entity) -> (owner: Option<Entity>)
    ensures
        owner == range_owner(world@, e),
{
    match world.index_of(e) {
        Some(i) => {
            if world.tags[i].aggro_range.is_some() {
                world.tags[i].parent
            } else {
                None
            }
        },
        None => None,
    }
}

/// The ship and the creature that a contact between `a` and `b` brings
/// together, if any.
fn pair_of(world: &World, a: Entity, b: Entity) -> (pair: Option<(Entity, Entity)>)
    ensures
        pair == aggro_pair(world@, a, b),
{
    if world.is_ship(a) {
        if let Some(creature) = owner_of_range(world, b) {
            return Some((a, creature));
        }
    }
    if world.is_ship(b) {
        if let Some(creature) = owner_of_range(world, a) {
            return Some((b, creature));
        }
    }
    None
}

/// Brings the pursuit relation up to date with one contact event.
pub fn handle_aggro_event(world: &mut World, event: CollisionEvent)
    ensures
        final(world)@ == aggro_step(old(world)@, event),
        final(world).order() == old(world).order(),
{
    proof {
        use_type_invariant(&*world);
    }
    match event {
        CollisionEvent::Started(a, b) => {
            if let Some((ship, creature)) = pair_of(world, a, b) {
                if let Some(i) = world.index_of(creature) {
                    world.tags[i].aggro = Some(Aggro(ship));
                    proof {
                        lemma_assemble_update(
                            old(world).entities@,
                            old(world).tags@,
                            i as int,
                            world.tags@[i as int],
                        );
                    }
                }
            }
        },
        CollisionEvent::Stopped(a, b) => {
            if let Some((_, creature)) = pair_of(world, a, b) {
                if let Some(i) = world.index_of(creature) {
                    world.tags[i].aggro = None;
                    world.tags[i].velocity = Some(Velocity::Zero);
                    proof {
                        lemma_assemble_update(
                            old(world).entities@,
                            old(world).tags@,
                            i as int,
                            world.tags@[i as int],
                        );
                    }
                }
            }
        },
    }
}

/// Brings the pursuit relation up to date with the contact events of a
/// frame, in order.
///
/// When a ship enters the aggro range of a creature, the creature begins to
/// pursue that ship. When it leaves, the creature gives up and stops at once.
pub fn handle_aggro(world: &mut World, collision_events: &Vec<CollisionEvent>)
    ensures
        final(world)@ == aggro_after(old(world)@, collision_events@),
        final(world).order() == old(world).order(),
{
    let mut i: usize = 0;
    while i < collision_events.len()
        invariant
            i <= collision_events.len(),
            world@ == aggro_after(old(world)@, collision_events@.take(i as int)),
            world.order() == old(world).order(),
        decreases collision_events.len() - i,
    {
        proof {
            let next = collision_events@.take(i + 1);
            assert(next.drop_last() =~= collision_events@.take(i as int));
        }
        handle_aggro_event(world, collision_events[i]);
        i += 1;
    }
    assert(collision_events@.take(i as int) =~= collision_events@);
}

/// Steers every pursuing creature straight toward the ship it pursues, at the
/// creature's own speed. A creature whose target is gone keeps the velocity
/// it had.
pub fn aggro_movement(world: &mut World)
    ensures
        final(world)@ == pursuit(old(world)@),
        final(world).order() == old(world).order(),
{
    proof {
        use_type_invariant(&*world);
    }
    let n = world.tags.len();
    let mut i: usize = 0;
    while i < n
        invariant
            i <= n,
            n == world.tags@.len(),
            world.entities@ == old(world).entities@,
            world.entities@.no_duplicates(),
            world.tags@.len() == old(world).tags@.len(),
            world.entities@.len() == n,
            forall|k: int|
                0 <= k < i ==> world.tags@[k] == steered(old(world)@, old(world).tags@[k]),
            forall|k: int| i <= k < n ==> world.tags@[k] == old(world).tags@[k],
        decreases n - i,
    {
        let target = match world.tags[i].aggro {
            Some(Aggro(ship)) => Some(ship),
            None => None,
        };
        let speed = match world.tags[i].speed {
            Some(s) => Some(s.0),
            None => None,
        };
        if let (Some(target), Some(speed)) = (target, speed) {
            if world.tags[i].velocity.is_some() {
                if world.contains(target) {
                    world.tags[i].velocity = Some(Velocity::Toward { target, speed });
                }
            }
        }
        i += 1;
    }
    proof {
        let before = old(world)@;
        let after = world@;
        assert forall|e: Entity| before.contains_key(e) implies after.contains_key(e) && after[e]
            == steered(before, before[e]) by {
            lemma_assemble_pointwise(world.entities@, old(world).tags@, world.tags@, e);
        }
    }
}

/// When a ship leaves the aggro range of a live creature, the creature
/// pursues nothing any more and is at rest, whatever its velocity was and in
/// whichever order the event names the two. The range is taken not to be a
/// ship itself.
pub proof fn lemma_leaving_range_calms(
    m: Map<Entity, Tags>,
    ship: Entity,
    range: Entity,
    creature: Entity,
)
    requires
        is_ship(m, ship),
        !is_ship(m, range),
        range_owner(m, range) == Some(creature),
        m.contains_key(creature),
    ensures
        aggro_step(m, CollisionEvent::Stopped(ship, range)) == aggro_step(
            m,
            CollisionEvent::Stopped(range, ship),
        ),
        aggro_step(m, CollisionEvent::Stopped(ship, range)).contains_key(creature),
        aggro_step(m, CollisionEvent::Stopped(ship, range))[creature].aggro is None,
        aggro_step(m, CollisionEvent::Stopped(ship, range))[creature].velocity == Some(
            Velocity::Zero,
        ),
        forall|e: Entity|
            e != creature ==> (#[trigger] aggro_step(
                m,
                CollisionEvent::Stopped(ship, range),
            ).contains_key(e) <==> m.contains_key(e)) && (m.contains_key(e) ==> aggro_step(
                m,
                CollisionEvent::Stopped(ship, range),
            )[e] == m[e]),
{
}

/// When a ship enters the aggro range of a live creature, the creature
/// pursues that ship, in whichever order the event names the two. The range
/// is taken not to be a ship itself.
pub proof fn lemma_entering_range_provokes(
    m: Map<Entity, Tags>,
    ship: Entity,
    range: Entity,
    creature: Entity,
)
    requires
        is_ship(m, ship),
        !is_ship(m, range),
        range_owner(m, range) == Some(creature),
        m.contains_key(creature),
    ensures
        aggro_step(m, CollisionEvent::Started(ship, range)) == aggro_step(
            m,
            CollisionEvent::Started(range, ship),
        ),
        aggro_step(m, CollisionEvent::Started(ship, range)).contains_key(creature),
        aggro_step(m, CollisionEvent::Started(ship, range))[creature].aggro == Some(Aggro(ship)),
{
}

} // verus!
