use bobs_adventure::beams::{beam_input, beam_up, boost_input, BeamUpEvent, InteractLightBeam, UnderBeamItems};
use bobs_adventure::damage::{handle_collision, handle_collisions};
use bobs_adventure::entity::Entity;
use bobs_adventure::game::{FrameInput, Game};
use bobs_adventure::level::{Inventory, Item, ResourceNameplate};
use bobs_adventure::movement::Speed;
use bobs_adventure::physics::{ActiveEvents, Collider, CollisionEvent, Point, Sensor};
use bobs_adventure::ship::Ship;
use bobs_adventure::animation::Animation;
use bobs_adventure::world::{Tags, Visibility, World};
use bobs_adventure::AppState;

fn item(description: &str) -> Item {
    Item { description: description.to_string(), texture: "resources.png".to_string() }
}

fn ship_tags(capacity: u32) -> Tags {
    let mut tags = Tags::new();
    tags.ship = Some(Ship);
    tags.inventory = Some(Inventory::new(capacity));
    tags.speed = Some(Speed(90));
    tags
}

fn item_tags(description: &str) -> Tags {
    let mut tags = Tags::new();
    tags.item = Some(item(description));
    tags
}

fn beam_tags(parent: Entity) -> Tags {
    let mut tags = Tags::new();
    tags.beam = Some(InteractLightBeam);
    tags.parent = Some(parent);
    tags.visibility = Visibility::Hidden;
    tags
}

fn plate_tags(parent: Entity) -> Tags {
    let mut tags = Tags::new();
    tags.nameplate = Some(ResourceNameplate);
    tags.parent = Some(parent);
    tags.visibility = Visibility::Hidden;
    tags
}

const SHIP: u32 = 1;
const BEAM: u32 = 2;

fn world_with_items(capacity: u32, items: &[(u32, &str)]) -> World {
    let mut world = World::new();
    world.insert(Entity::from_raw(SHIP), ship_tags(capacity));
    world.insert(Entity::from_raw(BEAM), beam_tags(Entity::from_raw(SHIP)));
    for (index, description) in items {
        world.insert(Entity::from_raw(*index), item_tags(description));
        world.insert(Entity::from_raw(*index + 100), plate_tags(Entity::from_raw(*index)));
    }
    world
}

fn inventory_of(world: &World, ship: Entity) -> Vec<String> {
    world
        .get(ship)
        .unwrap()
        .inventory
        .as_ref()
        .unwrap()
        .iter()
        .map(|item| item.description.clone())
        .collect()
}

#[test]
fn it_adds_to_inventory_when_beam_up() {
    let mut game = Game::new();
    game.state = AppState::InGame;
    game.under_beam = UnderBeamItems(vec![Entity::from_raw(0)]);

    let player = Entity::from_raw(0);
    let mut tags = Tags::new();
    tags.ship = Some(Ship);
    tags.inventory = Some(Inventory::new(30));
    game.world.insert(player, tags);

    let mut input = FrameInput::new();
    input.beam_up_pressed = true;

    game.update(&input);

    let inventory = game.world.get(player).and_then(|tags| tags.inventory.as_ref());
    assert_eq!(inventory.iter().len(), 1);
}

#[test]
fn beam_up_of_an_entity_that_is_no_item_consumes_it_without_event() {
    let mut world = World::new();
    let player = Entity::from_raw(0);
    world.insert(player, ship_tags(30));
    let mut under_beam = UnderBeamItems(vec![player]);
    let event = beam_up(true, &mut world, &mut under_beam);
    assert_eq!(event, None);
    assert!(under_beam.0.is_empty());
    assert_eq!(inventory_of(&world, player).len(), 0);
}

#[test]
fn started_contact_puts_item_under_beam_and_shows_nameplate() {
    let mut world = world_with_items(30, &[(10, "Herbs")]);
    let mut under_beam = UnderBeamItems(vec![]);
    let herbs = Entity::from_raw(10);
    let beam = Entity::from_raw(BEAM);
    handle_collisions(&mut world, &vec![CollisionEvent::Started(herbs, beam)], &mut under_beam);
    assert_eq!(under_beam.0, vec![herbs]);
    assert_eq!(world.get(Entity::from_raw(110)).unwrap().visibility, Visibility::Visible);
    assert_eq!(world.get(herbs).unwrap().visibility, Visibility::Inherited);
}

#[test]
fn started_contact_is_recognised_in_either_order() {
    let mut world = world_with_items(30, &[(10, "Herbs")]);
    let mut under_beam = UnderBeamItems(vec![]);
    let herbs = Entity::from_raw(10);
    let beam = Entity::from_raw(BEAM);
    handle_collision(&mut world, CollisionEvent::Started(beam, herbs), &mut under_beam);
    assert_eq!(under_beam.0, vec![herbs]);
}

#[test]
fn contact_without_a_beam_changes_nothing() {
    let mut world = world_with_items(30, &[(10, "Herbs"), (11, "Gold")]);
    let mut under_beam = UnderBeamItems(vec![]);
    let events = vec![
        CollisionEvent::Started(Entity::from_raw(10), Entity::from_raw(SHIP)),
        CollisionEvent::Started(Entity::from_raw(10), Entity::from_raw(11)),
        CollisionEvent::Started(Entity::from_raw(77), Entity::from_raw(BEAM)),
    ];
    handle_collisions(&mut world, &events, &mut under_beam);
    assert!(under_beam.0.is_empty());
    assert_eq!(world.get(Entity::from_raw(110)).unwrap().visibility, Visibility::Hidden);
}

#[test]
fn stopped_contact_removes_first_occurrence_and_hides_nameplate() {
    let mut world = world_with_items(30, &[(10, "Herbs"), (11, "Gold")]);
    let herbs = Entity::from_raw(10);
    let gold = Entity::from_raw(11);
    let beam = Entity::from_raw(BEAM);
    let mut under_beam = UnderBeamItems(vec![]);
    let events = vec![
        CollisionEvent::Started(herbs, beam),
        CollisionEvent::Started(gold, beam),
        CollisionEvent::Started(herbs, beam),
    ];
    handle_collisions(&mut world, &events, &mut under_beam);
    assert_eq!(under_beam.0, vec![herbs, gold, herbs]);
    handle_collisions(&mut world, &vec![CollisionEvent::Stopped(beam, herbs)], &mut under_beam);
    assert_eq!(under_beam.0, vec![gold, herbs]);
    assert_eq!(world.get(Entity::from_raw(110)).unwrap().visibility, Visibility::Hidden);
    assert_eq!(world.get(Entity::from_raw(111)).unwrap().visibility, Visibility::Visible);
}

#[test]
fn stopped_contact_of_an_item_not_under_the_beam_is_a_no_op() {
    let mut world = world_with_items(30, &[(10, "Herbs"), (11, "Gold")]);
    let mut under_beam = UnderBeamItems(vec![Entity::from_raw(10)]);
    handle_collisions(
        &mut world,
        &vec![CollisionEvent::Stopped(Entity::from_raw(11), Entity::from_raw(BEAM))],
        &mut under_beam,
    );
    assert_eq!(under_beam.0, vec![Entity::from_raw(10)]);
}

#[test]
fn stopped_contact_releases_both_sides_when_both_are_items() {
    let mut world = world_with_items(30, &[(10, "Herbs"), (11, "Gold")]);
    let mut under_beam = UnderBeamItems(vec![Entity::from_raw(10), Entity::from_raw(11)]);
    handle_collisions(
        &mut world,
        &vec![CollisionEvent::Stopped(Entity::from_raw(11), Entity::from_raw(10))],
        &mut under_beam,
    );
    assert!(under_beam.0.is_empty());
}

#[test]
fn stack_holds_exactly_the_items_started_and_not_stopped() {
    let mut world = world_with_items(30, &[(10, "Herbs"), (11, "Gold"), (12, "Water")]);
    let beam = Entity::from_raw(BEAM);
    let (a, b, c) = (Entity::from_raw(10), Entity::from_raw(11), Entity::from_raw(12));
    let mut under_beam = UnderBeamItems(vec![]);
    let events = vec![
        CollisionEvent::Started(a, beam),
        CollisionEvent::Started(beam, b),
        CollisionEvent::Stopped(a, beam),
        CollisionEvent::Started(c, beam),
        CollisionEvent::Started(a, beam),
        CollisionEvent::Stopped(beam, c),
    ];
    handle_collisions(&mut world, &events, &mut under_beam);
    let mut held = under_beam.0.clone();
    held.sort_by_key(|e| e.index());
    assert_eq!(held, vec![a, b]);
}

#[test]
fn beam_up_pops_the_item_pushed_last() {
    let mut world = world_with_items(30, &[(10, "I1"), (11, "I2"), (12, "I3")]);
    let beam = Entity::from_raw(BEAM);
    let mut under_beam = UnderBeamItems(vec![]);
    let events = vec![
        CollisionEvent::Started(Entity::from_raw(10), beam),
        CollisionEvent::Started(Entity::from_raw(11), beam),
        CollisionEvent::Started(Entity::from_raw(12), beam),
    ];
    handle_collisions(&mut world, &events, &mut under_beam);
    let event = beam_up(true, &mut world, &mut under_beam);
    assert_eq!(event, Some(BeamUpEvent(Entity::from_raw(12))));
    assert_eq!(under_beam.0, vec![Entity::from_raw(10), Entity::from_raw(11)]);
    assert_eq!(inventory_of(&world, Entity::from_raw(SHIP)), vec!["I3".to_string()]);
}

#[test]
fn beam_up_without_the_command_or_with_nothing_under_the_beam_does_nothing() {
    let mut world = world_with_items(30, &[(10, "Herbs")]);
    let mut under_beam = UnderBeamItems(vec![Entity::from_raw(10)]);
    assert_eq!(beam_up(false, &mut world, &mut under_beam), None);
    assert_eq!(under_beam.0, vec![Entity::from_raw(10)]);
    let mut nothing = UnderBeamItems(vec![]);
    assert_eq!(beam_up(true, &mut world, &mut nothing), None);
    assert!(inventory_of(&world, Entity::from_raw(SHIP)).is_empty());
}

#[test]
fn beam_up_into_a_full_inventory_drops_the_item_and_still_sends_the_event() {
    let mut world = world_with_items(1, &[(10, "Herbs"), (11, "Gold")]);
    let mut under_beam = UnderBeamItems(vec![Entity::from_raw(10), Entity::from_raw(11)]);
    assert_eq!(beam_up(true, &mut world, &mut under_beam), Some(BeamUpEvent(Entity::from_raw(11))));
    assert_eq!(beam_up(true, &mut world, &mut under_beam), Some(BeamUpEvent(Entity::from_raw(10))));
    assert_eq!(inventory_of(&world, Entity::from_raw(SHIP)), vec!["Gold".to_string()]);
    assert!(under_beam.0.is_empty());
}

#[test]
fn beam_up_needs_exactly_one_ship_with_an_inventory() {
    let mut world = world_with_items(30, &[(10, "Herbs")]);
    world.insert(Entity::from_raw(50), ship_tags(30));
    let mut under_beam = UnderBeamItems(vec![Entity::from_raw(10)]);
    assert_eq!(beam_up(true, &mut world, &mut under_beam), None);
    assert!(under_beam.0.is_empty());
    assert!(inventory_of(&world, Entity::from_raw(SHIP)).is_empty());
    assert!(inventory_of(&world, Entity::from_raw(50)).is_empty());

    let mut lonely = World::new();
    lonely.insert(Entity::from_raw(10), item_tags("Herbs"));
    let mut under_beam = UnderBeamItems(vec![Entity::from_raw(10)]);
    assert_eq!(beam_up(true, &mut lonely, &mut under_beam), None);
}

#[test]
fn inventory_of_capacity_two_keeps_the_first_two_of_three_items() {
    let mut inventory = Inventory::new(2);
    inventory.add(&item("first"));
    inventory.add(&item("second"));
    inventory.add(&item("third"));
    let held: Vec<&str> = inventory.iter().map(|item| item.description.as_str()).collect();
    assert_eq!(held, vec!["first", "second"]);
    assert_eq!(inventory.len(), 2);
    assert_eq!(inventory.capacity(), 2);
    assert_eq!(inventory.get(1).unwrap().description, "second");
    assert!(inventory.get(2).is_none());
}

#[test]
fn inventory_of_capacity_zero_holds_nothing() {
    let mut inventory = Inventory::new(0);
    inventory.add(&item("first"));
    assert_eq!(inventory.iter().len(), 0);
}

#[test]
fn herbs_enter_the_beam_and_are_beamed_up() {
    let mut game = Game::new();
    game.state = AppState::InGame;
    game.world = world_with_items(50, &[(10, "Herbs")]);
    let herbs = Entity::from_raw(10);
    let beam = Entity::from_raw(BEAM);

    let mut entering = FrameInput::new();
    entering.collision_events = vec![CollisionEvent::Started(herbs, beam)];
    let output = game.update(&entering);
    assert_eq!(output.beam_up, None);
    assert_eq!(game.under_beam.0, vec![herbs]);

    let mut command = FrameInput::new();
    command.beam_up_pressed = true;
    let output = game.update(&command);
    assert_eq!(output.beam_up, Some(BeamUpEvent(herbs)));
    assert_eq!(output.next_state, None);
    assert_eq!(inventory_of(&game.world, Entity::from_raw(SHIP)), vec!["Herbs".to_string()]);
    assert!(game.under_beam.0.is_empty());

    let output = game.update(&command);
    assert_eq!(output.beam_up, None);
    assert_eq!(inventory_of(&game.world, Entity::from_raw(SHIP)).len(), 1);
}

#[test]
fn events_and_command_of_one_frame_are_taken_in_that_order() {
    let mut game = Game::new();
    game.state = AppState::InGame;
    game.world = world_with_items(50, &[(10, "Herbs")]);
    let herbs = Entity::from_raw(10);
    let mut input = FrameInput::new();
    input.collision_events = vec![CollisionEvent::Started(herbs, Entity::from_raw(BEAM))];
    input.beam_up_pressed = true;
    let output = game.update(&input);
    assert_eq!(output.beam_up, Some(BeamUpEvent(herbs)));
    assert!(game.under_beam.0.is_empty());
}

#[test]
fn outside_a_running_game_contacts_and_commands_are_ignored() {
    let mut game = Game::new();
    assert_eq!(game.state, AppState::MainMenu);
    game.world = world_with_items(50, &[(10, "Herbs")]);
    let mut input = FrameInput::new();
    input.collision_events = vec![CollisionEvent::Started(Entity::from_raw(10), Entity::from_raw(BEAM))];
    input.beam_up_pressed = true;
    let output = game.update(&input);
    assert_eq!(output.beam_up, None);
    assert_eq!(output.next_state, None);
    assert!(game.under_beam.0.is_empty());
    assert_eq!(game.state, AppState::MainMenu);
}

#[test]
fn pressing_the_beam_button_lights_the_beam_and_releasing_darkens_it() {
    let mut world = world_with_items(30, &[(10, "Herbs")]);
    let beam = Entity::from_raw(BEAM);
    let ship = Entity::from_raw(SHIP);

    beam_input(&mut world, false, false);
    assert_eq!(world.get(beam).unwrap().visibility, Visibility::Hidden);
    assert_eq!(world.get(beam).unwrap().collider, None);

    beam_input(&mut world, true, false);
    let lit = world.get(beam).unwrap();
    assert_eq!(lit.visibility, Visibility::Visible);
    assert_eq!(
        lit.collider,
        Some(Collider::Triangle {
            a: Point { x: -55, y: 0 },
            b: Point { x: 56, y: 18 },
            c: Point { x: 56, y: -18 },
        })
    );
    assert_eq!(lit.sensor, Some(Sensor));
    assert_eq!(lit.active_events, Some(ActiveEvents));
    assert_eq!(world.get(ship).unwrap().animation, Some(Animation { first: 0, last: 1, frames_per_second: 7 }));
    assert_eq!(world.get(Entity::from_raw(10)).unwrap().collider, None);

    beam_input(&mut world, false, true);
    let dark = world.get(beam).unwrap();
    assert_eq!(dark.visibility, Visibility::Hidden);
    assert_eq!(dark.collider, None);
    assert_eq!(dark.sensor, None);
    assert_eq!(dark.active_events, Some(ActiveEvents));
    assert_eq!(world.get(ship).unwrap().animation, None);
}

#[test]
fn boost_adds_seventy_on_press_and_takes_seventy_on_release() {
    let mut world = world_with_items(30, &[]);
    let ship = Entity::from_raw(SHIP);
    boost_input(&mut world, true, false);
    assert_eq!(world.get(ship).unwrap().speed, Some(Speed(160)));
    assert_eq!(world.get(ship).unwrap().animation, Some(Animation::blinking()));
    boost_input(&mut world, false, false);
    assert_eq!(world.get(ship).unwrap().speed, Some(Speed(160)));
    boost_input(&mut world, false, true);
    assert_eq!(world.get(ship).unwrap().speed, Some(Speed(90)));
    assert_eq!(world.get(ship).unwrap().animation, None);
}

#[test]
fn boost_release_without_press_is_not_guarded() {
    let mut world = world_with_items(30, &[]);
    let ship = Entity::from_raw(SHIP);
    boost_input(&mut world, false, true);
    assert_eq!(world.get(ship).unwrap().speed, Some(Speed(20)));
    boost_input(&mut world, false, true);
    assert_eq!(world.get(ship).unwrap().speed, Some(Speed(-50)));
    boost_input(&mut world, true, true);
    assert_eq!(world.get(ship).unwrap().speed, Some(Speed(-50)));
}

#[test]
fn boost_holds_at_the_ends_of_the_range() {
    let mut world = World::new();
    let ship = Entity::from_raw(SHIP);
    let mut tags = ship_tags(1);
    tags.speed = Some(Speed(i32::MAX - 1));
    world.insert(ship, tags);
    boost_input(&mut world, true, false);
    assert_eq!(world.get(ship).unwrap().speed, Some(Speed(i32::MAX)));
    let mut tags = ship_tags(1);
    tags.speed = Some(Speed(i32::MIN + 69));
    world.insert(ship, tags);
    boost_input(&mut world, false, true);
    assert_eq!(world.get(ship).unwrap().speed, Some(Speed(i32::MIN)));
}
