//! Contacts between entities: which items the beam is on, which ships are
//! being hurt, and the periodic loss of health that follows.

use vstd::prelude::*;
use vstd::multiset::group_multiset_axioms;
use vstd::seq_lib::{to_multiset_build, to_multiset_contains, to_multiset_remove};
use crate::beams::UnderBeamItems;
use crate::entity::Entity;
use crate::physics::CollisionEvent;
use crate::level::{fresh_damage, health_after, Damage, DamageCollider, Health};
use crate::timer::fired_during;
use crate::world::{
    is_beam, is_item, is_ship, lemma_assemble_pointwise, lemma_assemble_update, Tags, Visibility,
    World,
};
use crate::AppState;

verus! {

/// The item that a contact between `a` and `b` puts under the beam: the one
/// of the two that is an item, when the other is a beam and not an item.
pub open spec fn beamed_item(m: Map<Entity, Tags>, a: Entity, b: Entity) -> Option<Entity> {
    if is_item(m, a) && !is_item(m, b) && is_beam(m, b) {
        Some(a)
    } else if is_item(m, b) && !is_item(m, a) && is_beam(m, a) {
        Some(b)
    } else {
        None
    }
}

/// `t` with its visibility set to `v` if it is a nameplate of `item`.
pub open spec fn plate_set(t: Tags, item: Entity, v: Visibility) -> Tags {
    if t.parent == Some(item) && t.nameplate is Some {
        Tags { visibility: v, ..t }
    } else {
        t
    }
}

/// The world with the nameplates of `item` set to `v`.
pub open spec fn with_plates(m: Map<Entity, Tags>, item: Entity, v: Visibility) -> Map<
    Entity,
    Tags,
> {
    Map::new(|e: Entity| m.contains_key(e), |e: Entity| plate_set(m[e], item, v))
}

/// World and stack after `e` left a contact: if it is an item, its first
/// occurrence leaves the stack and its nameplates are hidden.
pub open spec fn released(m: Map<Entity, Tags>, stack: Seq<Entity>, e: Entity) -> (
    Map<Entity, Tags>,
    Seq<Entity>,
) {
    if is_item(m, e) {
        (with_plates(m, e, Visibility::Hidden), stack.remove_value(e))
    } else {
        (m, stack)
    }
}

/// World and stack after one contact event.
pub open spec fn targeting_step(m: Map<Entity, Tags>, stack: Seq<Entity>, event: CollisionEvent) -> (
    Map<Entity, Tags>,
    Seq<Entity>,
) {
    match event {
        CollisionEvent::Started(a, b) => match beamed_item(m, a, b) {
            Some(item) => (with_plates(m, item, Visibility::Visible), stack.push(item)),
            None => (m, stack),
        },
        CollisionEvent::Stopped(a, b) => {
            let (m1, s1) = released(m, stack, a);
            released(m1, s1, b)
        },
    }
}

/// World and stack after the contact events of `events`, in order.
pub open spec fn targeting(m: Map<Entity, Tags>, stack: Seq<Entity>, events: Seq<CollisionEvent>) -> (
    Map<Entity, Tags>,
    Seq<Entity>,
)
    decreases events.len(),
{
    if events.len() == 0 {
        (m, stack)
    } else {
        let (m1, s1) = targeting(m, stack, events.drop_last());
        targeting_step(m1, s1, events.last())
    }
}

/// Sets the visibility of the nameplates of `item`.
fn set_plates(world: &mut World, item: Entity, v: Visibility)
    ensures
        final(world)@ == with_plates(old(world)@, item, v),
        final(world).order() == old(world).order(),
{
    proof {
        use_type_invariant(&*world);
    }
    let n = world.tags.len();
    let mut i: usize = 0;
    while i < n
        invariant
            i <= n,
            n == world.tags@.len(),
            world.entities@ == old(world).entities@,
            world.entities@.no_duplicates(),
            world.tags@.len() == old(world).tags@.len(),
            world.entities@.len() == n,
            forall|k: int| 0 <= k < i ==> world.tags@[k] == plate_set(old(world).tags@[k], item, v),
            forall|k: int| i <= k < n ==> world.tags@[k] == old(world).tags@[k],
        decreases n - i,
    {
        let is_plate = world.tags[i].nameplate.is_some() && match world.tags[i].parent {
            Some(p) => p == item,
            None => false,
        };
        if is_plate {
            world.tags[i].visibility = v;
        }
        i += 1;
    }
    proof {
        let before = old(world)@;
        let after = world@;
        assert forall|e: Entity| before.contains_key(e) implies after.contains_key(e) && after[e]
            == plate_set(before[e], item, v) by {
            lemma_assemble_pointwise(world.entities@, old(world).tags@, world.tags@, e);
        }
        assert(after =~= with_plates(before, item, v));
    }
}

/// Takes the first occurrence of `e` out of `stack`, if there is one.
fn remove_first(stack: &mut Vec<Entity>, e: Entity)
    ensures
        final(stack)@ == old(stack)@.remove_value(e),
{
    let mut i: usize = 0;
    while i < stack.len()
        invariant
            i <= stack.len(),
            stack@ == old(stack)@,
            forall|k: int| 0 <= k < i ==> stack@[k] != e,
        decreases stack.len() - i,
    {
        if stack[i] == e {
            proof {
                stack@.index_of_first_ensures(e);
                assert(stack@.contains(e));
            }
            stack.remove(i);
            return ;
        }
        i += 1;
    }
    proof {
        stack@.index_of_first_ensures(e);
    }
}

/// Handles the end of a contact for one of its two sides.
fn release(world: &mut World, under_beam: &mut UnderBeamItems, e: Entity)
    ensures
        (final(world)@, final(under_beam).0@) == released(old(world)@, old(under_beam).0@, e),
        final(world).order() == old(world).order(),
{
    if world.is_item(e) {
        remove_first(&mut under_beam.0, e);
        set_plates(world, e, Visibility::Hidden);
    }
}

/// Brings the beam's stack and the nameplates up to date with one contact
/// event.
pub fn handle_collision(world: &mut World, event: CollisionEvent, under_beam: &mut UnderBeamItems)
    ensures
        (final(world)@, final(under_beam).0@) == targeting_step(
            old(world)@,
            old(under_beam).0@,
            event,
        ),
        final(world).order() == old(world).order(),
{
    match event {
        CollisionEvent::Started(a, b) => {
            let a_item = world.is_item(a);
            let b_item = world.is_item(b);
            if a_item && !b_item && world.is_beam(b) {
                under_beam.0.push(a);
                set_plates(world, a, Visibility::Visible);
            } else if b_item && !a_item && world.is_beam(a) {
                under_beam.0.push(b);
                set_plates(world, b, Visibility::Visible);
            }
        },
        CollisionEvent::Stopped(a, b) => {
            release(world, under_beam, a);
            release(world, under_beam, b);
        },
    }
}

/// Brings the beam's stack and the nameplates up to date with the contact
/// events of a frame, in order.
///
/// A started contact between an item and a beam puts the item on top of the
/// stack and shows its nameplates. A stopped contact takes each side that is
/// an item out of the stack, at its first occurrence, and hides its
/// nameplates.
pub fn handle_collisions(
    world: &mut World,
    collision_events: &Vec<CollisionEvent>,
    under_beam: &mut UnderBeamItems,
)
    ensures
        (final(world)@, final(under_beam).0@) == targeting(
            old(world)@,
            old(under_beam).0@,
            collision_events@,
        ),
        final(world).order() == old(world).order(),
{
    let mut i: usize = 0;
    while i < collision_events.len()
        invariant
            i <= collision_events.len(),
            (world@, under_beam.0@) == targeting(
                old(world)@,
                old(under_beam).0@,
                collision_events@.take(i as int),
            ),
            world.order() == old(world).order(),
        decreases collision_events.len() - i,
    {
        proof {
            let next = collision_events@.take(i + 1);
            assert(next.drop_last() =~= collision_events@.take(i as int));
            assert(next.last() == collision_events@[i as int]);
        }
        handle_collision(world, collision_events[i], under_beam);
        i += 1;
    }
    assert(collision_events@.take(i as int) =~= collision_events@);
}

/// The points per period that touching `e` costs, when `e` is alive and
/// damaging.
pub open spec fn damager(m: Map<Entity, Tags>, e: Entity) -> Option<u32> {
    if m.contains_key(e) {
        match m[e].damage_collider {
            Some(DamageCollider(amount)) => Some(amount),
            None => None,
        }
    } else {
        None
    }
}

/// The points per period and the ship that a contact between `a` and `b`
/// brings together: one side is damaging, the other is a ship.
pub open spec fn damage_pair(m: Map<Entity, Tags>, a: Entity, b: Entity) -> Option<(u32, Entity)> {
    if damager(m, a) is Some && is_ship(m, b) {
        Some((damager(m, a)->0, b))
    } else if damager(m, b) is Some && is_ship(m, a) {
        Some((damager(m, b)->0, a))
    } else {
        None
    }
}

/// The world after `ship` was given `damage` in place of what it had.
pub open spec fn with_damage(m: Map<Entity, Tags>, ship: Entity, damage: Option<Damage>) -> Map<
    Entity,
    Tags,
> {
    if m.contains_key(ship) {
        m.insert(ship, Tags { damage, ..m[ship] })
    } else {
        m
    }
}

/// The world after one contact event, as far as contact damage goes.
pub open spec fn contact_step(m: Map<Entity, Tags>, event: CollisionEvent) -> Map<Entity, Tags> {
    match event {
        CollisionEvent::Started(a, b) => match damage_pair(m, a, b) {
            Some((amount, ship)) => with_damage(m, ship, Some(fresh_damage(amount))),
            None => m,
        },
        CollisionEvent::Stopped(a, b) => match damage_pair(m, a, b) {
            Some((_, ship)) => with_damage(m, ship, None),
            None => m,
        },
    }
}

/// The world after the contact events of `events`, in order, as far as
/// contact damage goes.
pub open spec fn contact_after(m: Map<Entity, Tags>, events: Seq<CollisionEvent>) -> Map<
    Entity,
    Tags,
>
    decreases events.len(),
{
    if events.len() == 0 {
        m
    } else {
        contact_step(contact_after(m, events.drop_last()), events.last())
    }
}

/// Whether `t` is a ship with health that is being damaged.
pub open spec fn suffers(t: Tags) -> bool {
    t.ship is Some && t.damage is Some && t.health is Some
}

/// `t` after `delta` nanoseconds of contact damage: the timer moves on, and
/// health drops by the amount for each period boundary crossed.
pub open spec fn ticked(t: Tags, delta: int) -> Tags {
    match (t.damage, t.health) {
        (Some(Damage(amount, timer)), Some(health)) => if t.ship is Some {
            Tags {
                damage: Some(Damage(amount, timer.advanced(delta))),
                health: Some(
                    Health {
                        current: health_after(
                            health.current as int,
                            amount as int,
                            fired_during(timer.period(), timer.elapsed(), delta),
                        ) as i64,
                        max: health.max,
                    },
                ),
                ..t
            }
        } else {
            t
        },
        _ => t,
    }
}

/// The world after `delta` nanoseconds of contact damage.
pub open spec fn after_damage(m: Map<Entity, Tags>, delta: int) -> Map<Entity, Tags> {
    Map::new(|e: Entity| m.contains_key(e), |e: Entity| ticked(m[e], delta))
}

/// Whether contact damage brought a ship down between `before` and `after`:
/// a damaged ship that still had health before has none left after.
pub open spec fn falls(before: Tags, after: Tags) -> bool {
    &&& suffers(before)
    &&& !before.health->0.depleted()
    &&& after.health is Some
    &&& after.health->0.depleted()
}

/// Whether contact damage brought some ship down between the worlds `before`
/// and `after`.
pub open spec fn some_ship_lost(before: Map<Entity, Tags>, after: Map<Entity, Tags>) -> bool {
    exists|e: Entity|
        #[trigger] before.contains_key(e) && after.contains_key(e) && falls(before[e], after[e])
}

/// The points per period that touching `e` costs, if any.
fn damager_of(world: &World, e: Entity) -> (amount: Option<u32>)
    ensures
        amount == damager(world@, e),
{
    match world.index_of(e) {
        Some(i) => match world.tags[i].damage_collider {
            Some(DamageCollider(amount)) => Some(amount),
            None => None,
        },
        None => None,
    }
}

/// The points per period and the ship that a contact between `a` and `b`
/// brings together, if any.
fn contact_of(world: &World, a: Entity, b: Entity) -> (pair: Option<(u32, Entity)>)
    ensures
        pair == damage_pair(world@, a, b),
{
    if let Some(amount) = damager_of(world, a) {
        if world.is_ship(b) {
            return Some((amount, b));
        }
    }
    if let Some(amount) = damager_of(world, b) {
        if world.is_ship(a) {
            return Some((amount, a));
        }
    }
    None
}

/// Gives `ship` the contact damage `damage` in place of what it had.
fn set_damage(world: &mut World, ship: Entity, damage: Option<Damage>)
    ensures
        final(world)@ == with_damage(old(world)@, ship, damage),
        final(world).order() == old(world).order(),
{
    proof {
        use_type_invariant(&*world);
    }
    if let Some(i) = world.index_of(ship) {
        world.tags[i].damage = damage;
        proof {
            lemma_assemble_update(
                old(world).entities@,
                old(world).tags@,
                i as int,
                world.tags@[i as int],
            );
            assert(world.tags@ =~= old(world).tags@.update(i as int, world.tags@[i as int]));
        }
    }
}

/// Brings contact damage up to date with one contact event.
pub fn handle_collision_damage_event(world: &mut World, event: CollisionEvent)
    ensures
        final(world)@ == contact_step(old(world)@, event),
        final(world).order() == old(world).order(),
{
    match event {
        CollisionEvent::Started(a, b) => {
            if let Some((amount, ship)) = contact_of(world, a, b) {
                set_damage(world, ship, Some(Damage::new(amount)));
            }
        },
        CollisionEvent::Stopped(a, b) => {
            if let Some((_, ship)) = contact_of(world, a, b) {
                set_damage(world, ship, None);
            }
        },
    }
}

/// Brings contact damage up to date with the contact events of a frame, in
/// order.
///
/// When something damaging begins to touch a ship, the ship is marked as
/// damaged at that rate, counted from now and in place of any earlier mark.
/// When it stops touching, the mark is taken off.
pub fn handle_collision_damage(world: &mut World, collision_events: &Vec<CollisionEvent>)
    ensures
        final(world)@ == contact_after(old(world)@, collision_events@),
        final(world).order() == old(world).order(),
{
    let mut i: usize = 0;
    while i < collision_events.len()
        invariant
            i <= collision_events.len(),
            world@ == contact_after(old(world)@, collision_events@.take(i as int)),
            world.order() == old(world).order(),
        decreases collision_events.len() - i,
    {
        proof {
            let next = collision_events@.take(i + 1);
            assert(next.drop_last() =~= collision_events@.take(i as int));
            assert(next.last() == collision_events@[i as int]);
        }
        handle_collision_damage_event(world, collision_events[i]);
        i += 1;
    }
    assert(collision_events@.take(i as int) =~= collision_events@);
}

/// Lets `delta_nanos` nanoseconds of contact damage pass.
///
/// Every damaged ship loses the amount of its damage once for each period
/// boundary that its timer crosses. The game is over, and the answer is
/// `Some(AppState::GameOver)`, exactly when this brings a ship down: a
/// damaged ship that still had health runs out of it. A ship that was out of
/// health already asks for nothing again.
pub fn handle_damage(world: &mut World, delta_nanos: u64) -> (next_state: Option<AppState>)
    ensures
        final(world)@ == after_damage(old(world)@, delta_nanos as int),
        final(world).order() == old(world).order(),
        next_state == if some_ship_lost(old(world)@, final(world)@) {
            Some(AppState::GameOver)
        } else {
            None
        },
{
    proof {
        use_type_invariant(&*world);
    }
    let n = world.tags.len();
    let mut lost = false;
    let mut i: usize = 0;
    while i < n
        invariant
            i <= n,
            n == world.tags@.len(),
            world.entities@ == old(world).entities@,
            world.entities@.no_duplicates(),
            world.tags@.len() == old(world).tags@.len(),
            world.entities@.len() == n,
            forall|k: int|
                0 <= k < i ==> world.tags@[k] == ticked(old(world).tags@[k], delta_nanos as int),
            forall|k: int| i <= k < n ==> world.tags@[k] == old(world).tags@[k],
            lost == exists|k: int|
                0 <= k < i && falls(
                    #[trigger] old(world).tags@[k],
                    ticked(old(world).tags@[k], delta_nanos as int),
                ),
        decreases n - i,
    {
        if world.tags[i].ship.is_some() {
            if let (Some(Damage(amount, timer)), Some(health)) = (
                world.tags[i].damage,
                world.tags[i].health,
            ) {
                let had_health = !health.is_depleted();
                let mut timer = timer;
                let mut health = health;
                let fired = timer.tick(delta_nanos);
                health.damage(amount, fired);
                world.tags[i].damage = Some(Damage(amount, timer));
                world.tags[i].health = Some(health);
                if had_health && health.is_depleted() {
                    lost = true;
                }
            }
        }
        proof {
            let t = old(world).tags@[i as int];
            assert(world.tags@[i as int] == ticked(t, delta_nanos as int));
            if lost && !falls(t, ticked(t, delta_nanos as int)) {
                let k = choose|k: int|
                    0 <= k < i && falls(
                        #[trigger] old(world).tags@[k],
                        ticked(old(world).tags@[k], delta_nanos as int),
                    );
                assert(0 <= k < i + 1);
            }
        }
        i += 1;
    }
    proof {
        let before = old(world)@;
        let after = world@;
        assert forall|e: Entity| before.contains_key(e) implies after.contains_key(e) && after[e]
            == ticked(before[e], delta_nanos as int) by {
            lemma_assemble_pointwise(world.entities@, old(world).tags@, world.tags@, e);
        }
        assert(after =~= after_damage(before, delta_nanos as int));
        if lost {
            let k = choose|k: int|
                0 <= k < n && falls(
                    #[trigger] old(world).tags@[k],
                    ticked(old(world).tags@[k], delta_nanos as int),
                );
            crate::world::lemma_assemble_at(old(world).entities@, old(world).tags@, k);
            let e = old(world).entities@[k];
            assert(before.contains_key(e) && after.contains_key(e) && falls(before[e], after[e]));
        }
        if some_ship_lost(before, after) {
            let e = choose|e: Entity|
                #[trigger] before.contains_key(e) && after.contains_key(e) && falls(
                    before[e],
                    after[e],
                );
            lemma_assemble_pointwise(world.entities@, old(world).tags@, world.tags@, e);
            let k = old(world).entities@.index_of(e);
            assert(falls(old(world).tags@[k], ticked(old(world).tags@[k], delta_nanos as int)));
        }
    }
    if lost {
        Some(AppState::GameOver)
    } else {
        None
    }
}

/// A ship is brought down once: when one tick of contact damage has brought
/// it down, the next does not bring it down again, however long it is.
pub proof fn lemma_brought_down_once(t: Tags, first: int, second: int)
    ensures
        !(falls(t, ticked(t, first)) && falls(
            ticked(t, first),
            ticked(ticked(t, first), second),
        )),
{
}

/// How many period boundaries the timer of the contact damage on `t`, if
/// any, crosses in `delta` nanoseconds.
pub open spec fn fires(t: Tags, delta: int) -> int {
    match t.damage {
        Some(Damage(_, timer)) => fired_during(timer.period(), timer.elapsed(), delta),
        None => 0,
    }
}

/// A tick in which no timer of a damaged ship crosses a period boundary takes
/// no health and asks for nothing.
pub proof fn lemma_quiet_tick_asks_nothing(m: Map<Entity, Tags>, delta: int)
    requires
        forall|e: Entity| m.contains_key(e) && suffers(#[trigger] m[e]) ==> fires(m[e], delta) == 0,
    ensures
        forall|e: Entity|
            m.contains_key(e) ==> (#[trigger] after_damage(m, delta)[e]).health == m[e].health,
        !some_ship_lost(m, after_damage(m, delta)),
{
    assert forall|e: Entity| m.contains_key(e) implies (#[trigger] after_damage(
        m,
        delta,
    )[e]).health == m[e].health by {
        match m[e].damage {
            Some(Damage(amount, _)) => {
                assert(amount * 0 == 0) by (nonlinear_arith);
            },
            None => {},
        }
    }
}

/// Whether the timer of the contact damage on `t`, if any, is a timer.
pub open spec fn timed(t: Tags) -> bool {
    match t.damage {
        Some(Damage(_, timer)) => timer.valid(),
        None => true,
    }
}

/// Losing health for some blows and then for some more is losing it for all
/// of them at once.
pub proof fn lemma_health_adds_up(current: int, amount: int, first: int, second: int)
    requires
        i64::MIN <= current <= i64::MAX,
        0 <= amount,
        0 <= first,
        0 <= second,
    ensures
        i64::MIN <= health_after(current, amount, first) <= current,
        health_after(health_after(current, amount, first), amount, second) == health_after(
            current,
            amount,
            first + second,
        ),
{
    assert(amount * (first + second) == amount * first + amount * second) by (nonlinear_arith);
    assert(0 <= amount * first) by (nonlinear_arith)
        requires
            0 <= amount,
            0 <= first,
    ;
    assert(0 <= amount * second) by (nonlinear_arith)
        requires
            0 <= amount,
            0 <= second,
    ;
}

/// Contact damage does not depend on how time is cut into frames: letting
/// `first` and then `second` nanoseconds pass leaves the same health and the
/// same timer as letting their sum pass at once.
pub proof fn lemma_damage_splits(t: Tags, first: int, second: int)
    requires
        timed(t),
        0 <= first,
        0 <= second,
    ensures
        timed(ticked(t, first)),
        ticked(ticked(t, first), second) == ticked(t, first + second),
{
    match (t.damage, t.health) {
        (Some(Damage(amount, timer)), Some(health)) => {
            if t.ship is Some {
                timer.lemma_bounds();
                timer.lemma_advanced_twice(first, second);
                timer.lemma_advanced(first);
                crate::timer::lemma_ticks_compose(timer.period(), timer.elapsed(), first, second);
                let h1 = fired_during(timer.period(), timer.elapsed(), first);
                let h2 = fired_during(
                    timer.period(),
                    timer.advanced(first).elapsed(),
                    second,
                );
                vstd::arithmetic::div_mod::lemma_div_pos_is_pos(
                    timer.elapsed() + first,
                    timer.period(),
                );
                vstd::arithmetic::div_mod::lemma_div_pos_is_pos(
                    timer.advanced(first).elapsed() + second,
                    timer.period(),
                );
                lemma_health_adds_up(health.current as int, amount as int, h1, h2);
            }
        },
        _ => {},
    }
}

/// The same for a whole world whose timers are timers.
pub proof fn lemma_world_damage_splits(m: Map<Entity, Tags>, first: int, second: int)
    requires
        forall|e: Entity| m.contains_key(e) ==> timed(#[trigger] m[e]),
        0 <= first,
        0 <= second,
    ensures
        after_damage(after_damage(m, first), second) == after_damage(m, first + second),
{
    assert forall|e: Entity| m.contains_key(e) implies #[trigger] after_damage(
        after_damage(m, first),
        second,
    )[e] == after_damage(m, first + second)[e] by {
        lemma_damage_splits(m[e], first, second);
    }
    assert(after_damage(after_damage(m, first), second) =~= after_damage(m, first + second));
}

/// The item of a contact between an item and a beam, whichever way round
/// the event names them.
pub open spec fn contact_item(m: Map<Entity, Tags>, event: CollisionEvent) -> Option<Entity> {
    match event {
        CollisionEvent::Started(a, b) => beamed_item(m, a, b),
        CollisionEvent::Stopped(a, b) => beamed_item(m, a, b),
    }
}

/// Whether `event` is the beam coming onto `item`.
pub open spec fn begins(m: Map<Entity, Tags>, event: CollisionEvent, item: Entity) -> bool {
    event is Started && contact_item(m, event) == Some(item)
}

/// Whether `event` is the beam going off `item`.
pub open spec fn ends(m: Map<Entity, Tags>, event: CollisionEvent, item: Entity) -> bool {
    event is Stopped && contact_item(m, event) == Some(item)
}

/// Whether, after `events`, the beam is on `item`: it came onto the item and
/// has not gone off it since.
pub open spec fn overlapped(m: Map<Entity, Tags>, events: Seq<CollisionEvent>, item: Entity) -> bool {
    exists|k: int|
        0 <= k < events.len() && #[trigger] begins(m, events[k], item) && forall|j: int|
            k < j < events.len() ==> !#[trigger] ends(m, events[j], item)
}

/// Whether every event of `events` is a contact between an item and a beam.
pub open spec fn beam_contacts(m: Map<Entity, Tags>, events: Seq<CollisionEvent>) -> bool {
    forall|k: int| 0 <= k < events.len() ==> (#[trigger] contact_item(m, events[k])) is Some
}

/// Whether the beam never comes onto an item that it is already on.
pub open spec fn starts_once(m: Map<Entity, Tags>, events: Seq<CollisionEvent>) -> bool {
    forall|k: int, item: Entity|
        0 <= k < events.len() && #[trigger] begins(m, events[k], item) ==> !overlapped(
            m,
            events.take(k),
            item,
        )
}

/// Whether `n` holds the same entities as `m`, each with the same item data
/// and the same beam mark.
pub open spec fn same_kinds(m: Map<Entity, Tags>, n: Map<Entity, Tags>) -> bool {
    &&& n.dom() == m.dom()
    &&& forall|e: Entity|
        m.contains_key(e) ==> (#[trigger] n[e]).item == m[e].item && n[e].beam == m[e].beam
}

/// Setting the nameplates of an item keeps the kinds.
proof fn lemma_plates_keep_kinds(
    m: Map<Entity, Tags>,
    n: Map<Entity, Tags>,
    item: Entity,
    v: Visibility,
)
    requires
        same_kinds(m, n),
    ensures
        same_kinds(m, with_plates(n, item, v)),
{
    let shown = with_plates(n, item, v);
    assert(shown.dom() =~= n.dom());
    assert forall|e: Entity| m.contains_key(e) implies (#[trigger] shown[e]).item == m[e].item
        && shown[e].beam == m[e].beam by {
        assert(n.contains_key(e));
        assert(shown[e] == plate_set(n[e], item, v));
        assert(n[e].item == m[e].item);
    }
}

/// Showing and hiding nameplates changes neither which entities are items
/// nor which are beams.
pub proof fn lemma_targeting_keeps_kinds(
    m: Map<Entity, Tags>,
    stack: Seq<Entity>,
    events: Seq<CollisionEvent>,
)
    ensures
        same_kinds(m, targeting(m, stack, events).0),
    decreases events.len(),
{
    if events.len() > 0 {
        lemma_targeting_keeps_kinds(m, stack, events.drop_last());
        let (m1, s1) = targeting(m, stack, events.drop_last());
        match events.last() {
            CollisionEvent::Started(a, b) => {
                if let Some(item) = beamed_item(m1, a, b) {
                    lemma_plates_keep_kinds(m, m1, item, Visibility::Visible);
                }
            },
            CollisionEvent::Stopped(a, b) => {
                let (m2, s2) = released(m1, s1, a);
                lemma_plates_keep_kinds(m, m1, a, Visibility::Hidden);
                lemma_plates_keep_kinds(m, m2, b, Visibility::Hidden);
            },
        }
    }
}

/// What one contact between an item and a beam does to the stack: the
/// beginning puts the item on top, the end takes its first occurrence out.
proof fn lemma_beam_step(
    m: Map<Entity, Tags>,
    m1: Map<Entity, Tags>,
    stack: Seq<Entity>,
    event: CollisionEvent,
)
    requires
        same_kinds(m, m1),
        contact_item(m, event) is Some,
    ensures
        targeting_step(m1, stack, event).1 == if event is Started {
            stack.push(contact_item(m, event)->0)
        } else {
            stack.remove_value(contact_item(m, event)->0)
        },
{
    match event {
        CollisionEvent::Started(a, b) => {
            assert(beamed_item(m1, a, b) == beamed_item(m, a, b));
        },
        CollisionEvent::Stopped(a, b) => {
            assert(beamed_item(m1, a, b) == beamed_item(m, a, b));
            let (m2, s2) = released(m1, stack, a);
            lemma_plates_keep_kinds(m, m1, a, Visibility::Hidden);
            assert(same_kinds(m, m2));
        },
    }
}

/// How often `item` occurs after its first occurrence, if any, was taken out.
proof fn lemma_count_after_removal(stack: Seq<Entity>, gone: Entity, item: Entity)
    ensures
        stack.remove_value(gone).to_multiset().count(item) == if item == gone
            && stack.to_multiset().count(item) > 0 {
            stack.to_multiset().count(item) - 1
        } else {
            stack.to_multiset().count(item) as int
        },
{
    broadcast use group_multiset_axioms;

    stack.index_of_first_ensures(gone);
    to_multiset_contains(stack, gone);
    match stack.index_of_first(gone) {
        Some(i) => {
            to_multiset_remove(stack, i);
        },
        None => {},
    }
}

/// After any run of contacts between items and a beam in which the beam
/// never comes onto an item that it is already on, the stack that began
/// empty holds each item that the beam is on exactly once, and nothing else.
pub proof fn lemma_stack_discipline(
    m: Map<Entity, Tags>,
    events: Seq<CollisionEvent>,
    item: Entity,
)
    requires
        beam_contacts(m, events),
        starts_once(m, events),
    ensures
        targeting(m, Seq::empty(), events).1.to_multiset().count(item) == if overlapped(
            m,
            events,
            item,
        ) {
            1nat
        } else {
            0nat
        },
    decreases events.len(),
{
    broadcast use group_multiset_axioms;

    let empty = Seq::<Entity>::empty();
    if events.len() == 0 {
        to_multiset_contains(empty, item);
    } else {
        let n = events.len() as int;
        let prefix = events.drop_last();
        let last = events.last();
        let (m1, s1) = targeting(m, empty, prefix);
        let x = contact_item(m, last)->0;
        assert(contact_item(m, events[n - 1]) is Some);
        assert forall|k: int| 0 <= k < prefix.len() implies (#[trigger] contact_item(
            m,
            prefix[k],
        )) is Some by {
            assert(prefix[k] == events[k]);
        }
        assert forall|k: int, it: Entity|
            0 <= k < prefix.len() && #[trigger] begins(m, prefix[k], it) implies !overlapped(
            m,
            prefix.take(k),
            it,
        ) by {
            assert(prefix[k] == events[k]);
            assert(prefix.take(k) =~= events.take(k));
        }
        lemma_stack_discipline(m, prefix, item);
        lemma_stack_discipline(m, prefix, x);
        lemma_targeting_keeps_kinds(m, empty, prefix);
        lemma_beam_step(m, m1, s1, last);
        let s = targeting(m, empty, events).1;
        if last is Started {
            to_multiset_build(s1, x);
            assert(begins(m, events[n - 1], x));
            assert(events.take(n - 1) =~= prefix);
            assert(!overlapped(m, prefix, x));
        } else {
            lemma_count_after_removal(s1, x, item);
            assert(ends(m, events[n - 1], x));
        }
        if overlapped(m, prefix, item) && item != x {
            let k = choose|k: int|
                0 <= k < prefix.len() && #[trigger] begins(m, prefix[k], item) && forall|j: int|
                    k < j < prefix.len() ==> !#[trigger] ends(m, prefix[j], item);
            assert(begins(m, events[k], item));
            assert forall|j: int| k < j < events.len() implies !#[trigger] ends(
                m,
                events[j],
                item,
            ) by {
                if j < n - 1 {
                    assert(events[j] == prefix[j]);
                }
            }
        }
        if overlapped(m, events, item) {
            let k = choose|k: int|
                0 <= k < events.len() && #[trigger] begins(m, events[k], item) && forall|j: int|
                    k < j < events.len() ==> !#[trigger] ends(m, events[j], item);
            if k < n - 1 {
                assert(begins(m, prefix[k], item));
                assert forall|j: int| k < j < prefix.len() implies !#[trigger] ends(
                    m,
                    prefix[j],
                    item,
                ) by {
                    assert(prefix[j] == events[j]);
                }
                assert(overlapped(m, prefix, item));
                assert(!ends(m, events[n - 1], item));
            }
        } else if item == x && last is Started {
            assert(begins(m, events[n - 1], item));
        }
    }
}

} // verus!
