use bobs_adventure::animation::Animation;
use bobs_adventure::beams::InteractLightBeam;
use bobs_adventure::entity::Entity;
use bobs_adventure::level::{
    AggroRange, DamageCollider, DestructiveLightBeam, Health, Herbs, LightSpeed, Organism,
    ResourceNameplate, YellowOrganism,
};
use bobs_adventure::movement::Speed;
use bobs_adventure::physics::{ActiveEvents, Collider, Point, Sensor, Velocity};
use bobs_adventure::ship::Ship;
use bobs_adventure::spawn::{spawn_entity_instance, spawn_entity_instances, EntityInstance, Kind, Spawned};
use bobs_adventure::world::{Tags, Visibility, World};

fn instance(index: u32, identifier: &str) -> EntityInstance {
    EntityInstance {
        entity: Entity::from_raw(index),
        identifier: identifier.to_string(),
        first_child: Entity::from_raw(index + 1),
        second_child: Entity::from_raw(index + 2),
    }
}

#[test]
fn identifiers_name_the_kinds() {
    let cases = [
        ("Player", Kind::Player),
        ("LightSpeed", Kind::LightSpeed),
        ("Herbs", Kind::Herbs),
        ("Gold", Kind::Gold),
        ("Element251", Kind::Element251),
        ("Water", Kind::Water),
        ("WeaponArtifact", Kind::WeaponArtifact),
        ("ShieldArtifact", Kind::ShieldArtifact),
        ("Organism", Kind::Organism),
        ("Hostiles", Kind::Hostiles),
    ];
    for (identifier, kind) in cases {
        assert_eq!(Kind::from_identifier(&identifier.to_string()), Some(kind));
    }
    assert_eq!(Kind::from_identifier(&"player".to_string()), None);
    assert_eq!(Kind::from_identifier(&"".to_string()), None);
    assert_eq!(Kind::from_identifier(&"Herbs ".to_string()), None);
}

#[test]
fn the_player_becomes_a_ship_with_its_two_beams() {
    let mut world = World::new();
    assert_eq!(spawn_entity_instance(&mut world, &instance(10, "Player")), Spawned::Created(Kind::Player));
    let ship = world.get(Entity::from_raw(10)).unwrap();
    assert_eq!(ship.ship, Some(Ship));
    assert_eq!(ship.health, Some(Health { current: 10, max: 10 }));
    assert_eq!(ship.inventory.as_ref().unwrap().capacity(), 50);
    assert_eq!(ship.inventory.as_ref().unwrap().len(), 0);
    assert_eq!(ship.speed, Some(Speed(90)));
    assert_eq!(ship.velocity, Some(Velocity::Zero));
    assert_eq!(
        ship.collider,
        Some(Collider::Triangle {
            a: Point { x: -11, y: -16 },
            b: Point { x: -11, y: 16 },
            c: Point { x: 16, y: 0 },
        })
    );
    assert!(ship.item.is_none());
    assert_eq!(ship.visibility, Visibility::Inherited);
    let beam = world.get(Entity::from_raw(11)).unwrap();
    assert_eq!(beam.beam, Some(InteractLightBeam));
    assert_eq!(beam.parent, Some(Entity::from_raw(10)));
    assert_eq!(beam.visibility, Visibility::Hidden);
    assert_eq!(beam.collider, None);
    let destructive = world.get(Entity::from_raw(12)).unwrap();
    assert_eq!(destructive.destructive_beam, Some(DestructiveLightBeam));
    assert_eq!(destructive.parent, Some(Entity::from_raw(10)));
    assert_eq!(destructive.visibility, Visibility::Hidden);
    assert_eq!(world.len(), 3);
}

#[test]
fn a_second_player_moves_the_ship_instead() {
    let mut world = World::new();
    let results = spawn_entity_instances(&mut world, &vec![instance(10, "Player"), instance(20, "Player")]);
    assert_eq!(results, vec![Spawned::Created(Kind::Player), Spawned::ShipMoved]);
    assert!(!world.contains(Entity::from_raw(20)));
    assert_eq!(world.len(), 3);
}

#[test]
fn herbs_become_an_item_with_a_hidden_nameplate() {
    let mut world = World::new();
    assert_eq!(spawn_entity_instance(&mut world, &instance(10, "Herbs")), Spawned::Created(Kind::Herbs));
    let herbs = world.get(Entity::from_raw(10)).unwrap();
    assert_eq!(herbs.herbs, Some(Herbs));
    assert_eq!(
        herbs.item.as_ref().unwrap().description,
        "Herbs:\nGain Life Support.\nSide Effects: Locals will come after you."
    );
    assert_eq!(herbs.item.as_ref().unwrap().texture, "resources.png");
    assert_eq!(herbs.collider, Some(Collider::Ball { radius: 8 }));
    assert_eq!(herbs.sensor, Some(Sensor));
    assert_eq!(herbs.active_events, None);
    assert_eq!(herbs.damage_collider, None);
    let plate = world.get(Entity::from_raw(11)).unwrap();
    assert_eq!(plate.nameplate, Some(ResourceNameplate));
    assert_eq!(plate.parent, Some(Entity::from_raw(10)));
    assert_eq!(plate.visibility, Visibility::Hidden);
    assert!(!world.contains(Entity::from_raw(12)));
    assert_eq!(Kind::Herbs.label().as_deref(), Some("Herbs"));
}

#[test]
fn every_resource_has_its_description_texture_and_label() {
    let cases = [
        (Kind::Gold, "Gold:\nGreat, I definitely need this.\n.", "resources-gold.png", "Gold"),
        (
            Kind::Element251,
            "Element251:\nRare element that unlocks advanced technology.\nSide Effects: ???.",
            "resources-element-251.png",
            "Element251",
        ),
        (
            Kind::Water,
            "Water:\nEssential for survival.\nSide Effects: Taking water will anger locals.",
            "resources-water.png",
            "Water",
        ),
        (
            Kind::WeaponArtifact,
            "Weapon Artifact:\nRadioactive weapon, capable of destruction.\nSide Effects:\nConsume 2 gold, 1 element251, 3 water, 5 organisms to activate.",
            "artifact.png",
            "Weapon Artifact",
        ),
        (
            Kind::ShieldArtifact,
            "Shield Artifact:\nReflective capabilities.\nSide Effects:\nConsumes 15 water, 1 element251, 3 herbs, 1 organisms to activate.",
            "artifact-shield.png",
            "Shield Artifact",
        ),
        (
            Kind::Organism,
            "Organism:\nCan be genetically modified to work for you.\nSide Effect: Could turn against you.",
            "organism.png",
            "Life Form",
        ),
        (
            Kind::Hostiles,
            "Organism:\nCan be genetically modified to work for you.\nSide Effect: Could turn against you.",
            "organism-yellow.png",
            "Life Form",
        ),
    ];
    for (kind, description, texture, label) in cases {
        let item = kind.item().unwrap();
        assert_eq!(item.description, description);
        assert_eq!(item.texture, texture);
        assert_eq!(kind.label().as_deref(), Some(label));
        let body = kind.body();
        assert_eq!(body.item.as_ref().unwrap().description, description);
        assert!(body.inventory.is_none());
    }
    assert!(Kind::Player.item().is_none());
    assert!(Kind::LightSpeed.item().is_none());
    assert!(Kind::Player.label().is_none());
}

#[test]
fn life_forms_hurt_and_carry_an_aggro_range() {
    let mut world = World::new();
    let results = spawn_entity_instances(&mut world, &vec![instance(10, "Organism"), instance(20, "Hostiles")]);
    assert_eq!(results, vec![Spawned::Created(Kind::Organism), Spawned::Created(Kind::Hostiles)]);
    let organism = world.get(Entity::from_raw(10)).unwrap();
    assert_eq!(organism.organism, Some(Organism));
    assert_eq!(organism.yellow_organism, None);
    assert_eq!(organism.damage_collider, Some(DamageCollider(1)));
    assert_eq!(organism.speed, Some(Speed(80)));
    assert_eq!(organism.velocity, Some(Velocity::Zero));
    assert_eq!(organism.collider, Some(Collider::Ball { radius: 14 }));
    assert_eq!(organism.active_events, Some(ActiveEvents));
    assert_eq!(organism.animation, Some(Animation { first: 0, last: 11, frames_per_second: 10 }));
    assert!(organism.item.is_some());
    let range = world.get(Entity::from_raw(12)).unwrap();
    assert_eq!(range.aggro_range, Some(AggroRange));
    assert_eq!(range.parent, Some(Entity::from_raw(10)));
    assert_eq!(range.collider, Some(Collider::Ball { radius: 96 }));
    assert_eq!(range.sensor, Some(Sensor));
    assert_eq!(range.active_events, Some(ActiveEvents));
    assert_eq!(range.visibility, Visibility::Inherited);
    assert_eq!(world.get(Entity::from_raw(11)).unwrap().nameplate, Some(ResourceNameplate));

    let hostile = world.get(Entity::from_raw(20)).unwrap();
    assert_eq!(hostile.yellow_organism, Some(YellowOrganism));
    assert_eq!(hostile.damage_collider, Some(DamageCollider(2)));
    assert_eq!(world.get(Entity::from_raw(22)).unwrap().collider, Some(Collider::Ball { radius: 106 }));
}

#[test]
fn light_speed_is_hidden_and_has_no_children() {
    let mut world = World::new();
    assert_eq!(spawn_entity_instance(&mut world, &instance(10, "LightSpeed")), Spawned::Created(Kind::LightSpeed));
    let effect = world.get(Entity::from_raw(10)).unwrap();
    assert_eq!(effect.light_speed, Some(LightSpeed));
    assert_eq!(effect.visibility, Visibility::Hidden);
    assert_eq!(effect.animation, Some(Animation { first: 0, last: 15, frames_per_second: 10 }));
    assert_eq!(world.len(), 1);
}

#[test]
fn an_unknown_identifier_is_ignored() {
    let mut world = World::new();
    world.insert(Entity::from_raw(10), Tags::new());
    assert_eq!(spawn_entity_instance(&mut world, &instance(10, "Boulder")), Spawned::Ignored);
    assert_eq!(world.len(), 1);
    assert!(world.get(Entity::from_raw(10)).unwrap().collider.is_none());
    assert_eq!(spawn_entity_instances(&mut world, &vec![]), vec![]);
}
