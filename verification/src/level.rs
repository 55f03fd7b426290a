//! What the entities of a level carry: item data, health, inventory, and the
//! markers that tell the kinds of entity apart.

use vstd::prelude::*;
use crate::timer::RepeatingTimer;
use std::slice::Iter;
use vstd::std_specs::iter::IteratorSpec;

verus! {

/// Period of contact damage, in milliseconds.
pub const DAMAGE_PERIOD_MILLIS: u32 = 150;

/// A collectible: its description for the player and the asset that draws it.
#[derive(Debug)]
pub struct Item {
    pub description: String,
    pub texture: String,
}

impl Clone for Item {
    fn clone(&self) -> (copy: Self)
        ensures
            copy == *self,
    {
        Item { description: self.description.clone(), texture: self.texture.clone() }
    }
}

/// Marks the label shown above an item while the beam is on it.
#[derive(Clone, Copy, Debug, PartialEq, Eq, Structural)]
pub struct ResourceNameplate;

/// Life support of a ship, in whole points. `current` may fall below zero.
#[derive(Clone, Copy, Debug, PartialEq, Eq, Structural)]
pub struct Health {
    pub current: i64,
    pub max: i64,
}

/// Health left after `hits` blows of `amount` each, held at the least
/// representable value.
pub open spec fn health_after(current: int, amount: int, hits: int) -> int {
    if current - amount * hits < i64::MIN {
        i64::MIN as int
    } else {
        current - amount * hits
    }
}

impl Health {
    /// Health never exceeds its maximum.
    pub open spec fn wf(self) -> bool {
        self.current <= self.max
    }

    /// Whether life support has run out.
    pub open spec fn depleted(self) -> bool {
        self.current <= 0
    }

    /// Full health of `hp` points.
    pub fn new(hp: i64) -> (h: Health)
        ensures
            h.current == hp,
            h.max == hp,
            h.wf(),
    {
        Health { current: hp, max: hp }
    }

    /// Takes `hits` blows of `amount` points each.
    pub fn damage(&mut self, amount: u32, hits: u64)
        ensures
            final(self).max == old(self).max,
            final(self).current == health_after(
                old(self).current as int,
                amount as int,
                hits as int,
            ),
            old(self).wf() ==> final(self).wf(),
    {
        assert(amount * hits <= 0xFFFF_FFFF * 0xFFFF_FFFF_FFFF_FFFF) by (nonlinear_arith)
            requires
                0 <= amount <= 0xFFFF_FFFF,
                0 <= hits <= 0xFFFF_FFFF_FFFF_FFFF,
        ;
        assert(0 <= amount * hits) by (nonlinear_arith)
            requires
                0 <= amount,
                0 <= hits,
        ;
        let loss: i128 = (amount as i128) * (hits as i128);
        let left: i128 = self.current as i128 - loss;
        if left < i64::MIN as i128 {
            self.current = i64::MIN;
        } else {
            self.current = left as i64;
        }
    }

    /// Restores one point unless health is already full.
    pub fn heal(&mut self)
        ensures
            final(self).max == old(self).max,
            final(self).current == if old(self).current < old(self).max {
                old(self).current + 1
            } else {
                old(self).current as int
            },
            old(self).wf() ==> final(self).wf(),
    {
        if self.current < self.max {
            self.current = self.current + 1;
        }
    }

    /// Whether life support has run out.
    pub fn is_depleted(&self) -> (d: bool)
        ensures
            d == self.depleted(),
    {
        self.current <= 0
    }
}

/// Marks a healing plant.
#[derive(Clone, Copy, Debug, PartialEq, Eq, Structural)]
pub struct Herbs;

/// Marks a docile life form.
#[derive(Clone, Copy, Debug, PartialEq, Eq, Structural)]
pub struct Organism;

/// Marks a hostile life form.
#[derive(Clone, Copy, Debug, PartialEq, Eq, Structural)]
pub struct YellowOrganism;

/// Marks gold.
#[derive(Clone, Copy, Debug, PartialEq, Eq, Structural)]
pub struct Gold;

/// Marks the rare element.
#[derive(Clone, Copy, Debug, PartialEq, Eq, Structural)]
pub struct Element251;

/// Marks water.
#[derive(Clone, Copy, Debug, PartialEq, Eq, Structural)]
pub struct Water;

/// Marks the weapon artifact.
#[derive(Clone, Copy, Debug, PartialEq, Eq, Structural)]
pub struct WeaponArtifact;

/// Marks the shield artifact.
#[derive(Clone, Copy, Debug, PartialEq, Eq, Structural)]
pub struct ShieldArtifact;

/// Marks the sensor around a creature inside which it notices the ship.
#[derive(Clone, Copy, Debug, PartialEq, Eq, Structural)]
pub struct AggroRange;

/// Marks the entity that carries the ship's destructive beam.
#[derive(Clone, Copy, Debug, PartialEq, Eq, Structural)]
pub struct DestructiveLightBeam;

/// Marks the light-speed effect.
#[derive(Clone, Copy, Debug, PartialEq, Eq, Structural)]
pub struct LightSpeed;

/// Damage, in whole points, that touching this entity deals per period.
#[derive(Clone, Copy, Debug, PartialEq, Eq, Structural)]
pub struct DamageCollider(pub u32);

/// Carried by a ship while something damaging touches it: the points lost
/// per period, and the timer that counts the periods.
#[derive(Clone, Copy, Debug)]
pub struct Damage(pub u32, pub RepeatingTimer);

impl Damage {
    /// Contact damage of `amount` points per period, counted from now.
    pub fn new(amount: u32) -> (d: Damage)
        ensures
            d == fresh_damage(amount),
    {
        Damage(amount, RepeatingTimer::from_millis(DAMAGE_PERIOD_MILLIS))
    }
}

/// Contact damage of `amount` points per period with nothing on the clock.
pub open spec fn fresh_damage(amount: u32) -> Damage {
    Damage(amount, RepeatingTimer::spec_from_millis(DAMAGE_PERIOD_MILLIS))
}

/// What an inventory of the given capacity holds after `item` was added to
/// `held`: appended while there is room, dropped when there is none.
pub open spec fn holding(held: Seq<Item>, capacity: nat, item: Item) -> Seq<Item> {
    if held.len() < capacity {
        held.push(item)
    } else {
        held
    }
}

/// What an inventory of the given capacity holds after the items of `items`
/// were added to `held`, in order.
pub open spec fn holding_all(held: Seq<Item>, capacity: nat, items: Seq<Item>) -> Seq<Item>
    decreases items.len(),
{
    if items.len() == 0 {
        held
    } else {
        holding(holding_all(held, capacity, items.drop_last()), capacity, items.last())
    }
}

/// An empty inventory to which items are added holds the first of them, as
/// many as its capacity allows, and drops the rest.
pub proof fn lemma_capacity_ceiling(capacity: nat, items: Seq<Item>)
    ensures
        holding_all(Seq::empty(), capacity, items) == if items.len() <= capacity {
            items
        } else {
            items.take(capacity as int)
        },
    decreases items.len(),
{
    if items.len() > 0 {
        let front = items.drop_last();
        lemma_capacity_ceiling(capacity, front);
    }
}

/// Bounded, ordered store of collected items. Once full it silently drops
/// what is added.
#[derive(Debug)]
pub struct Inventory {
    capacity: u32,
    items: Vec<Item>,
}

impl View for Inventory {
    type V = Seq<Item>;

    closed spec fn view(&self) -> Seq<Item> {
        self.items@
    }
}

impl Inventory {
    #[verifier::type_invariant]
    spec fn within_capacity(&self) -> bool {
        self.items@.len() <= self.capacity
    }

    /// The most items the inventory holds.
    pub closed spec fn spec_capacity(&self) -> nat {
        self.capacity as nat
    }

    /// An empty inventory of the given capacity.
    pub fn new(capacity: u32) -> (inventory: Inventory)
        ensures
            inventory@ == Seq::<Item>::empty(),
            inventory.spec_capacity() == capacity,
    {
        Inventory { capacity, items: Vec::new() }
    }

    /// The most items the inventory holds.
    pub fn capacity(&self) -> (c: u32)
        ensures
            c == self.spec_capacity(),
            self@.len() <= c,
    {
        proof {
            use_type_invariant(self);
        }
        self.capacity
    }

    /// Number of items held.
    pub fn len(&self) -> (n: usize)
        ensures
            n == self@.len(),
            n <= self.spec_capacity(),
    {
        proof {
            use_type_invariant(self);
        }
        self.items.len()
    }

    /// The item at position `index`, if there is one.
    pub fn get(&self, index: usize) -> (item: Option<&Item>)
        ensures
            index < self@.len() ==> item == Some(&self@[index as int]),
            index >= self@.len() ==> item is None,
    {
        if index < self.items.len() {
            Some(&self.items[index])
        } else {
            None
        }
    }

    /// Appends a copy of `item`, unless the inventory is full.
    pub fn add(&mut self, item: &Item)
        ensures
            final(self).spec_capacity() == old(self).spec_capacity(),
            final(self)@ == holding(old(self)@, old(self).spec_capacity(), *item),
    {
        proof {
            use_type_invariant(&*self);
        }
        if self.items.len() >= self.capacity as usize {
            return ;
        }
        let mut items: Vec<Item> = Vec::new();
        std::mem::swap(&mut self.items, &mut items);
        items.push(item.clone());
        std::mem::swap(&mut self.items, &mut items);
    }

    /// The items in the order they were added.
    pub fn iter(&self) -> (items: Iter<'_, Item>)
        ensures
            items.remaining() == self@.as_ref(),
    {
        broadcast use vstd::std_specs::slice::axiom_spec_slice_iter;

        self.items.as_slice().iter()
    }
}

} // verus!
