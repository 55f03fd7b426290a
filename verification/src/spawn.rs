//! Turning the entity instances of a level into tagged entities.

use vstd::prelude::*;
use vstd::string::StringExecFns;
use crate::animation::Animation;
use crate::beams::InteractLightBeam;
use crate::entity::Entity;
use crate::level::{
    AggroRange, DamageCollider, DestructiveLightBeam, Element251, Gold, Health, Herbs, Inventory,
    Item, LightSpeed, Organism, ResourceNameplate, ShieldArtifact, Water, WeaponArtifact,
    YellowOrganism,
};
use crate::movement::Speed;
use crate::physics::{ActiveEvents, Collider, Point, Sensor, Velocity};
use crate::ship::Ship;
use crate::world::{bare_tags, is_ship, lemma_assemble_pointwise, Tags, Visibility, World};

verus! {

/// The kinds of entity that a level places.
#[derive(Clone, Copy, Debug, PartialEq, Eq, Structural)]
pub enum Kind {
    Player,
    LightSpeed,
    Herbs,
    Gold,
    Element251,
    Water,
    WeaponArtifact,
    ShieldArtifact,
    Organism,
    Hostiles,
}

/// An entity that the level placed: the entity itself, the identifier of what
/// it is to become, and two fresh entities for its children.
#[derive(Debug)]
pub struct EntityInstance {
    pub entity: Entity,
    pub identifier: String,
    pub first_child: Entity,
    pub second_child: Entity,
}

/// What became of an entity instance.
#[derive(Clone, Copy, Debug, PartialEq, Eq, Structural)]
pub enum Spawned {
    /// Its identifier names no kind: nothing was done.
    Ignored,
    /// A ship exists already: it is to be moved to where the instance stands.
    ShipMoved,
    /// It became an entity of this kind.
    Created(Kind),
}

/// The kind that an identifier names.
pub open spec fn kind_of(identifier: Seq<char>) -> Option<Kind> {
    if identifier == "Player"@ {
        Some(Kind::Player)
    } else if identifier == "LightSpeed"@ {
        Some(Kind::LightSpeed)
    } else if identifier == "Herbs"@ {
        Some(Kind::Herbs)
    } else if identifier == "Gold"@ {
        Some(Kind::Gold)
    } else if identifier == "Element251"@ {
        Some(Kind::Element251)
    } else if identifier == "Water"@ {
        Some(Kind::Water)
    } else if identifier == "WeaponArtifact"@ {
        Some(Kind::WeaponArtifact)
    } else if identifier == "ShieldArtifact"@ {
        Some(Kind::ShieldArtifact)
    } else if identifier == "Organism"@ {
        Some(Kind::Organism)
    } else if identifier == "Hostiles"@ {
        Some(Kind::Hostiles)
    } else {
        None
    }
}

/// What the player reads about an item of this kind.
pub open spec fn description_of(kind: Kind) -> Option<Seq<char>> {
    match kind {
        Kind::Player | Kind::LightSpeed => None,
        Kind::Herbs => Some(
            "Herbs:\nGain Life Support.\nSide Effects: Locals will come after you."@,
        ),
        Kind::Gold => Some("Gold:\nGreat, I definitely need this.\n."@),
        Kind::Element251 => Some(
            "Element251:\nRare element that unlocks advanced technology.\nSide Effects: ???."@,
        ),
        Kind::Water => Some(
            "Water:\nEssential for survival.\nSide Effects: Taking water will anger locals."@,
        ),
        Kind::WeaponArtifact => Some(
            "Weapon Artifact:\nRadioactive weapon, capable of destruction.\nSide Effects:\nConsume 2 gold, 1 element251, 3 water, 5 organisms to activate."@,
        ),
        Kind::ShieldArtifact => Some(
            "Shield Artifact:\nReflective capabilities.\nSide Effects:\nConsumes 15 water, 1 element251, 3 herbs, 1 organisms to activate."@,
        ),
        Kind::Organism | Kind::Hostiles => Some(
            "Organism:\nCan be genetically modified to work for you.\nSide Effect: Could turn against you."@,
        ),
    }
}

/// The asset that draws an item of this kind in the inventory.
pub open spec fn texture_of(kind: Kind) -> Option<Seq<char>> {
    match kind {
        Kind::Player | Kind::LightSpeed => None,
        Kind::Herbs => Some("resources.png"@),
        Kind::Gold => Some("resources-gold.png"@),
        Kind::Element251 => Some("resources-element-251.png"@),
        Kind::Water => Some("resources-water.png"@),
        Kind::WeaponArtifact => Some("artifact.png"@),
        Kind::ShieldArtifact => Some("artifact-shield.png"@),
        Kind::Organism => Some("organism.png"@),
        Kind::Hostiles => Some("organism-yellow.png"@),
    }
}

/// What the nameplate of an entity of this kind says.
pub open spec fn label_of(kind: Kind) -> Option<Seq<char>> {
    match kind {
        Kind::Player | Kind::LightSpeed => None,
        Kind::Herbs => Some("Herbs"@),
        Kind::Gold => Some("Gold"@),
        Kind::Element251 => Some("Element251"@),
        Kind::Water => Some("Water"@),
        Kind::WeaponArtifact => Some("Weapon Artifact"@),
        Kind::ShieldArtifact => Some("Shield Artifact"@),
        Kind::Organism | Kind::Hostiles => Some("Life Form"@),
    }
}

/// How many items the inventory of an entity of this kind holds.
pub open spec fn capacity_of(kind: Kind) -> Option<nat> {
    match kind {
        Kind::Player => Some(50nat),
        _ => None,
    }
}

/// The hull of the ship.
pub open spec fn ship_shape() -> Collider {
    Collider::Triangle {
        a: Point { x: -11i32, y: -16i32 },
        b: Point { x: -11i32, y: 16 },
        c: Point { x: 16, y: 0 },
    }
}

/// What every resource carries.
pub open spec fn resource_plan() -> Tags {
    Tags { collider: Some(Collider::Ball { radius: 8 }), sensor: Some(Sensor), ..bare_tags() }
}

/// What every life form carries.
pub open spec fn creature_plan() -> Tags {
    Tags {
        collider: Some(Collider::Ball { radius: 14 }),
        sensor: Some(Sensor),
        animation: Some(Animation { first: 0, last: 11, frames_per_second: 10 }),
        velocity: Some(Velocity::Zero),
        speed: Some(Speed(80)),
        active_events: Some(ActiveEvents),
        ..bare_tags()
    }
}

/// What an entity of this kind carries, but for its item data and its
/// inventory.
pub open spec fn body_plan(kind: Kind) -> Tags {
    match kind {
        Kind::Player => Tags {
            ship: Some(Ship),
            health: Some(Health { current: 10, max: 10 }),
            collider: Some(ship_shape()),
            velocity: Some(Velocity::Zero),
            speed: Some(Speed(90)),
            ..bare_tags()
        },
        Kind::LightSpeed => Tags {
            light_speed: Some(LightSpeed),
            visibility: Visibility::Hidden,
            animation: Some(Animation { first: 0, last: 15, frames_per_second: 10 }),
            ..bare_tags()
        },
        Kind::Herbs => Tags { herbs: Some(Herbs), ..resource_plan() },
        Kind::Gold => Tags { gold: Some(Gold), ..resource_plan() },
        Kind::Element251 => Tags { element251: Some(Element251), ..resource_plan() },
        Kind::Water => Tags { water: Some(Water), ..resource_plan() },
        Kind::WeaponArtifact => Tags { weapon_artifact: Some(WeaponArtifact), ..resource_plan() },
        Kind::ShieldArtifact => Tags { shield_artifact: Some(ShieldArtifact), ..resource_plan() },
        Kind::Organism => Tags {
            organism: Some(Organism),
            damage_collider: Some(DamageCollider(1)),
            ..creature_plan()
        },
        Kind::Hostiles => Tags {
            yellow_organism: Some(YellowOrganism),
            damage_collider: Some(DamageCollider(2)),
            ..creature_plan()
        },
    }
}

/// A hidden nameplate of `parent`.
pub open spec fn nameplate_plan(parent: Entity) -> Tags {
    Tags {
        parent: Some(parent),
        visibility: Visibility::Hidden,
        nameplate: Some(ResourceNameplate),
        ..bare_tags()
    }
}

/// The aggro range of `parent`, reaching `radius` far.
pub open spec fn range_plan(parent: Entity, radius: u32) -> Tags {
    Tags {
        parent: Some(parent),
        collider: Some(Collider::Ball { radius }),
        active_events: Some(ActiveEvents),
        sensor: Some(Sensor),
        aggro_range: Some(AggroRange),
        ..bare_tags()
    }
}

/// What the first child of an entity of this kind carries, if it has one: the
/// ship's interaction beam, or a nameplate.
pub open spec fn first_child_plan(kind: Kind, parent: Entity) -> Option<Tags> {
    match kind {
        Kind::Player => Some(
            Tags {
                parent: Some(parent),
                visibility: Visibility::Hidden,
                beam: Some(InteractLightBeam),
                ..bare_tags()
            },
        ),
        Kind::LightSpeed => None,
        _ => Some(nameplate_plan(parent)),
    }
}

/// What the second child of an entity of this kind carries, if it has one:
/// the ship's destructive beam, or the aggro range of a life form.
pub open spec fn second_child_plan(kind: Kind, parent: Entity) -> Option<Tags> {
    match kind {
        Kind::Player => Some(
            Tags {
                parent: Some(parent),
                visibility: Visibility::Hidden,
                destructive_beam: Some(DestructiveLightBeam),
                ..bare_tags()
            },
        ),
        Kind::Organism => Some(range_plan(parent, 96)),
        Kind::Hostiles => Some(range_plan(parent, 106)),
        _ => None,
    }
}

/// Whether `t` is built to the plan of an entity of `kind`: it carries what
/// the plan says, the item data of the kind, and an empty inventory of the
/// kind's capacity.
pub open spec fn built(t: Tags, kind: Kind) -> bool {
    &&& t == (Tags { item: t.item, inventory: t.inventory, ..body_plan(kind) })
    &&& match t.item {
        Some(item) => Some(item.description@) == description_of(kind) && Some(item.texture@)
            == texture_of(kind),
        None => description_of(kind) is None,
    }
    &&& match t.inventory {
        Some(inventory) => Some(inventory.spec_capacity()) == capacity_of(kind) && inventory@.len()
            == 0,
        None => capacity_of(kind) is None,
    }
}

/// Whether some ship is alive.
pub open spec fn has_ship(m: Map<Entity, Tags>) -> bool {
    exists|e: Entity| is_ship(m, e)
}

/// What becomes of `instance` in the world `m`.
pub open spec fn outcome(m: Map<Entity, Tags>, instance: EntityInstance) -> Spawned {
    match kind_of(instance.identifier@) {
        None => Spawned::Ignored,
        Some(kind) => if kind == Kind::Player && has_ship(m) {
            Spawned::ShipMoved
        } else {
            Spawned::Created(kind)
        },
    }
}

/// The world after the children of `instance`, which became a `kind`, were
/// stored.
pub open spec fn with_children(m: Map<Entity, Tags>, kind: Kind, instance: EntityInstance) -> Map<
    Entity,
    Tags,
> {
    let m1 = match first_child_plan(kind, instance.entity) {
        Some(t) => m.insert(instance.first_child, t),
        None => m,
    };
    match second_child_plan(kind, instance.entity) {
        Some(t) => m1.insert(instance.second_child, t),
        None => m1,
    }
}

/// Whether `after` is `before` with `instance` spawned: the entity stored
/// with tags built to the plan of its kind, then its children.
pub open spec fn spawned(
    before: Map<Entity, Tags>,
    after: Map<Entity, Tags>,
    instance: EntityInstance,
) -> bool {
    match outcome(before, instance) {
        Spawned::Created(kind) => exists|body: Tags|
            #![trigger built(body, kind)]
            built(body, kind) && after == with_children(
                before.insert(instance.entity, body),
                kind,
                instance,
            ),
        _ => after == before,
    }
}

/// Whether `after` is `before` with the instances spawned in order, and
/// `outcomes` tells what became of each.
pub open spec fn spawned_all(
    before: Map<Entity, Tags>,
    after: Map<Entity, Tags>,
    instances: Seq<EntityInstance>,
    outcomes: Seq<Spawned>,
) -> bool
    decreases instances.len(),
{
    if instances.len() == 0 {
        after == before && outcomes.len() == 0
    } else {
        &&& outcomes.len() == instances.len()
        &&& exists|middle: Map<Entity, Tags>|
            #![trigger spawned(middle, after, instances.last())]
            spawned_all(before, middle, instances.drop_last(), outcomes.drop_last()) && spawned(
                middle,
                after,
                instances.last(),
            ) && outcomes.last() == outcome(middle, instances.last())
    }
}

/// Spawning one more instance extends a run of spawned instances.
proof fn lemma_spawned_one_more(
    before: Map<Entity, Tags>,
    middle: Map<Entity, Tags>,
    after: Map<Entity, Tags>,
    instances: Seq<EntityInstance>,
    outcomes: Seq<Spawned>,
)
    requires
        instances.len() > 0,
        outcomes.len() == instances.len(),
        spawned_all(before, middle, instances.drop_last(), outcomes.drop_last()),
        spawned(middle, after, instances.last()),
        outcomes.last() == outcome(middle, instances.last()),
    ensures
        spawned_all(before, after, instances, outcomes),
{
}

impl Kind {
    /// The kind that an identifier names.
    pub fn from_identifier(identifier: &String) -> (kind: Option<Kind>)
        ensures
            kind == kind_of(identifier@),
    {
        if *identifier == String::from_str("Player") {
            Some(Kind::Player)
        } else if *identifier == String::from_str("LightSpeed") {
            Some(Kind::LightSpeed)
        } else if *identifier == String::from_str("Herbs") {
            Some(Kind::Herbs)
        } else if *identifier == String::from_str("Gold") {
            Some(Kind::Gold)
        } else if *identifier == String::from_str("Element251") {
            Some(Kind::Element251)
        } else if *identifier == String::from_str("Water") {
            Some(Kind::Water)
        } else if *identifier == String::from_str("WeaponArtifact") {
            Some(Kind::WeaponArtifact)
        } else if *identifier == String::from_str("ShieldArtifact") {
            Some(Kind::ShieldArtifact)
        } else if *identifier == String::from_str("Organism") {
            Some(Kind::Organism)
        } else if *identifier == String::from_str("Hostiles") {
            Some(Kind::Hostiles)
        } else {
            None
        }
    }

    /// The item data of an entity of this kind, if it is collectible.
    pub fn item(self) -> (item: Option<Item>)
        ensures
            match item {
                Some(item) => Some(item.description@) == description_of(self) && Some(
                    item.texture@,
                ) == texture_of(self),
                None => description_of(self) is None && texture_of(self) is None,
            },
    {
        let (description, texture) = match self {
            Kind::Player | Kind::LightSpeed => {
                return None;
            },
            Kind::Herbs => (
                "Herbs:\nGain Life Support.\nSide Effects: Locals will come after you.",
                "resources.png",
            ),
            Kind::Gold => ("Gold:\nGreat, I definitely need this.\n.", "resources-gold.png"),
            Kind::Element251 => (
                "Element251:\nRare element that unlocks advanced technology.\nSide Effects: ???.",
                "resources-element-251.png",
            ),
            Kind::Water => (
                "Water:\nEssential for survival.\nSide Effects: Taking water will anger locals.",
                "resources-water.png",
            ),
            Kind::WeaponArtifact => (
                "Weapon Artifact:\nRadioactive weapon, capable of destruction.\nSide Effects:\nConsume 2 gold, 1 element251, 3 water, 5 organisms to activate.",
                "artifact.png",
            ),
            Kind::ShieldArtifact => (
                "Shield Artifact:\nReflective capabilities.\nSide Effects:\nConsumes 15 water, 1 element251, 3 herbs, 1 organisms to activate.",
                "artifact-shield.png",
            ),
            Kind::Organism => (
                "Organism:\nCan be genetically modified to work for you.\nSide Effect: Could turn against you.",
                "organism.png",
            ),
            Kind::Hostiles => (
                "Organism:\nCan be genetically modified to work for you.\nSide Effect: Could turn against you.",
                "organism-yellow.png",
            ),
        };
        Some(Item { description: String::from_str(description), texture: String::from_str(texture) })
    }

    /// What the nameplate of an entity of this kind says, if it has one.
    pub fn label(self) -> (label: Option<String>)
        ensures
            match label {
                Some(label) => Some(label@) == label_of(self),
                None => label_of(self) is None,
            },
    {
        let label = match self {
            Kind::Player | Kind::LightSpeed => {
                return None;
            },
            Kind::Herbs => "Herbs",
            Kind::Gold => "Gold",
            Kind::Element251 => "Element251",
            Kind::Water => "Water",
            Kind::WeaponArtifact => "Weapon Artifact",
            Kind::ShieldArtifact => "Shield Artifact",
            Kind::Organism | Kind::Hostiles => "Life Form",
        };
        Some(String::from_str(label))
    }

    /// The tags of a new entity of this kind.
    pub fn body(self) -> (tags: Tags)
        ensures
            built(tags, self),
    {
        let mut tags = Tags::new();
        tags.item = self.item();
        match self {
            Kind::Player => {
                tags.ship = Some(Ship);
                tags.health = Some(Health::new(10));
                tags.inventory = Some(Inventory::new(50));
                tags.collider = Some(
                    Collider::Triangle {
                        a: Point { x: -11, y: -16 },
                        b: Point { x: -11, y: 16 },
                        c: Point { x: 16, y: 0 },
                    },
                );
                tags.velocity = Some(Velocity::Zero);
                tags.speed = Some(Speed(90));
            },
            Kind::LightSpeed => {
                tags.light_speed = Some(LightSpeed);
                tags.visibility = Visibility::Hidden;
                tags.animation = Some(Animation::from_indices(0, 15, 10));
            },
            Kind::Organism | Kind::Hostiles => {
                tags.collider = Some(Collider::Ball { radius: 14 });
                tags.sensor = Some(Sensor);
                tags.animation = Some(Animation::from_indices(0, 11, 10));
                tags.velocity = Some(Velocity::Zero);
                tags.speed = Some(Speed(80));
                tags.active_events = Some(ActiveEvents);
                match self {
                    Kind::Organism => {
                        tags.organism = Some(Organism);
                        tags.damage_collider = Some(DamageCollider(1));
                    },
                    _ => {
                        tags.yellow_organism = Some(YellowOrganism);
                        tags.damage_collider = Some(DamageCollider(2));
                    },
                }
            },
            _ => {
                tags.collider = Some(Collider::Ball { radius: 8 });
                tags.sensor = Some(Sensor);
                match self {
                    Kind::Herbs => {
                        tags.herbs = Some(Herbs);
                    },
                    Kind::Gold => {
                        tags.gold = Some(Gold);
                    },
                    Kind::Element251 => {
                        tags.element251 = Some(Element251);
                    },
                    Kind::Water => {
                        tags.water = Some(Water);
                    },
                    Kind::WeaponArtifact => {
                        tags.weapon_artifact = Some(WeaponArtifact);
                    },
                    _ => {
                        tags.shield_artifact = Some(ShieldArtifact);
                    },
                }
            },
        }
        tags
    }

    /// The tags of the first child of a new entity of this kind, if it has
    /// one.
    pub fn first_child(self, parent: Entity) -> (tags: Option<Tags>)
        ensures
            tags == first_child_plan(self, parent),
    {
        let mut tags = Tags::new();
        tags.parent = Some(parent);
        tags.visibility = Visibility::Hidden;
        match self {
            Kind::Player => {
                tags.beam = Some(InteractLightBeam);
            },
            Kind::LightSpeed => {
                return None;
            },
            _ => {
                tags.nameplate = Some(ResourceNameplate);
            },
        }
        Some(tags)
    }

    /// The tags of the second child of a new entity of this kind, if it has
    /// one.
    pub fn second_child(self, parent: Entity) -> (tags: Option<Tags>)
        ensures
            tags == second_child_plan(self, parent),
    {
        let mut tags = Tags::new();
        tags.parent = Some(parent);
        match self {
            Kind::Player => {
                tags.visibility = Visibility::Hidden;
                tags.destructive_beam = Some(DestructiveLightBeam);
            },
            Kind::Organism | Kind::Hostiles => {
                let radius: u32 = match self {
                    Kind::Organism => 96,
                    _ => 106,
                };
                tags.collider = Some(Collider::Ball { radius });
                tags.active_events = Some(ActiveEvents);
                tags.sensor = Some(Sensor);
                tags.aggro_range = Some(AggroRange);
            },
            _ => {
                return None;
            },
        }
        Some(tags)
    }
}

/// Whether some ship is alive.
fn any_ship(world: &World) -> (found: bool)
    ensures
        found == has_ship(world@),
{
    proof {
        use_type_invariant(world);
    }
    let n = world.tags.len();
    let mut i: usize = 0;
    while i < n
        invariant
            i <= n,
            n == world.tags@.len(),
            n == world.entities@.len(),
            world.entities@.no_duplicates(),
            forall|k: int| 0 <= k < i ==> world.tags@[k].ship is None,
        decreases n - i,
    {
        if world.tags[i].ship.is_some() {
            proof {
                crate::world::lemma_assemble_at(world.entities@, world.tags@, i as int);
                assert(is_ship(world@, world.entities@[i as int]));
            }
            return true;
        }
        i += 1;
    }
    proof {
        assert forall|e: Entity| !is_ship(world@, e) by {
            if world@.contains_key(e) {
                lemma_assemble_pointwise(world.entities@, world.tags@, world.tags@, e);
            }
        }
    }
    false
}

/// Spawns one entity instance.
///
/// An instance whose identifier names a kind becomes an entity of that kind,
/// with its children. The player is spawned once only: while a ship is alive,
/// a further player instance asks for that ship to be moved instead.
pub fn spawn_entity_instance(world: &mut World, instance: &EntityInstance) -> (result: Spawned)
    ensures
        result == outcome(old(world)@, *instance),
        spawned(old(world)@, final(world)@, *instance),
{
    let kind = match Kind::from_identifier(&instance.identifier) {
        Some(kind) => kind,
        None => {
            return Spawned::Ignored;
        },
    };
    if kind == Kind::Player && any_ship(world) {
        return Spawned::ShipMoved;
    }
    let body = kind.body();
    let ghost stored = body;
    world.insert(instance.entity, body);
    if let Some(tags) = kind.first_child(instance.entity) {
        world.insert(instance.first_child, tags);
    }
    if let Some(tags) = kind.second_child(instance.entity) {
        world.insert(instance.second_child, tags);
    }
    assert(built(stored, kind) && world@ == with_children(
        old(world)@.insert(instance.entity, stored),
        kind,
        *instance,
    ));
    Spawned::Created(kind)
}

/// Spawns the entity instances of a level, in order, and tells what became
/// of each.
pub fn spawn_entity_instances(world: &mut World, instances: &Vec<EntityInstance>) -> (results: Vec<
    Spawned,
>)
    ensures
        spawned_all(old(world)@, final(world)@, instances@, results@),
{
    let mut results: Vec<Spawned> = Vec::new();
    let mut i: usize = 0;
    while i < instances.len()
        invariant
            i <= instances.len(),
            spawned_all(old(world)@, world@, instances@.take(i as int), results@),
        decreases instances.len() - i,
    {
        let ghost middle = world@;
        let ghost so_far = results@;
        let result = spawn_entity_instance(world, &instances[i]);
        results.push(result);
        proof {
            let next = instances@.take(i + 1);
            assert(next.drop_last() =~= instances@.take(i as int));
            assert(results@.drop_last() =~= so_far);
            lemma_spawned_one_more(old(world)@, middle, world@, next, results@);
        }
        i += 1;
    }
    assert(instances@.take(i as int) =~= instances@);
    results
}

} // verus!
