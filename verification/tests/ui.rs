use bobs_adventure::beams::{BeamUpEvent, UnderBeamItems};
use bobs_adventure::entity::Entity;
use bobs_adventure::level::{Health, Herbs, Item, Gold, LightSpeed};
use bobs_adventure::ship::Ship;
use bobs_adventure::ui::{
    dialog_interaction_system, health_ui, inventory_interactions, inventory_ui, menu_button_interactions_system,
    panel_text_update, setup_intro, DialogState, Interaction, InventoryButton, PanelMainText,
};
use bobs_adventure::world::{Tags, Visibility, World};
use bobs_adventure::AppState;

fn herbs() -> Tags {
    let mut tags = Tags::new();
    tags.item = Some(Item { description: "Herbs:\nGain Life Support.".to_string(), texture: "resources.png".to_string() });
    tags.herbs = Some(Herbs);
    tags
}

fn gold() -> Tags {
    let mut tags = Tags::new();
    tags.item = Some(Item { description: "Gold".to_string(), texture: "resources-gold.png".to_string() });
    tags.gold = Some(Gold);
    tags
}

fn world_with_ship(current: i64, max: i64) -> World {
    let mut world = World::new();
    let mut tags = Tags::new();
    tags.ship = Some(Ship);
    tags.health = Some(Health { current, max });
    world.insert(Entity::from_raw(1), tags);
    world
}

fn health(world: &World) -> i64 {
    world.get(Entity::from_raw(1)).unwrap().health.unwrap().current
}

#[test]
fn start_button_reacts_to_the_pointer() {
    let clicked = menu_button_interactions_system(Interaction::Clicked);
    assert_eq!(clicked.next_state, Some(AppState::Intro));
    assert_eq!(clicked.label, None);
    let hovered = menu_button_interactions_system(Interaction::Hovered);
    assert_eq!(hovered.next_state, None);
    assert_eq!(hovered.label.as_deref(), Some("- New Game -"));
    let idle = menu_button_interactions_system(Interaction::Idle);
    assert_eq!(idle.next_state, None);
    assert_eq!(idle.label.as_deref(), Some("New Game"));
}

#[test]
fn dialog_goes_through_its_lines_from_the_last_and_then_starts_the_game() {
    let mut dialog = DialogState(vec!["third".to_string(), "second".to_string(), "first".to_string()]);
    let reaction = dialog_interaction_system(Interaction::Idle, &mut dialog);
    assert_eq!(reaction.text.as_deref(), Some("first"));
    assert_eq!(reaction.border, Some(0));
    assert_eq!(reaction.next_state, None);
    assert_eq!(dialog.0.len(), 3);

    let reaction = dialog_interaction_system(Interaction::Hovered, &mut dialog);
    assert_eq!(reaction.text, None);
    assert_eq!(reaction.border, Some(2));
    assert_eq!(reaction.next_state, None);

    let reaction = dialog_interaction_system(Interaction::Clicked, &mut dialog);
    assert_eq!(reaction.text.as_deref(), Some("second"));
    assert_eq!(reaction.border, None);
    assert_eq!(reaction.next_state, None);
    let reaction = dialog_interaction_system(Interaction::Clicked, &mut dialog);
    assert_eq!(reaction.text.as_deref(), Some("third"));
    assert_eq!(reaction.next_state, None);
    let reaction = dialog_interaction_system(Interaction::Clicked, &mut dialog);
    assert_eq!(reaction.text.as_deref(), Some(""));
    assert_eq!(reaction.next_state, Some(AppState::InGame));
    assert!(dialog.0.is_empty());
    let reaction = dialog_interaction_system(Interaction::Clicked, &mut dialog);
    assert_eq!(reaction.text.as_deref(), Some(""));
    assert_eq!(reaction.next_state, Some(AppState::InGame));
    let reaction = dialog_interaction_system(Interaction::Idle, &mut dialog);
    assert_eq!(reaction.text.as_deref(), Some(""));
}

#[test]
fn using_herbs_heals_one_point_up_to_the_maximum() {
    let mut world = world_with_ship(8, 10);
    let mut panel = PanelMainText("something".to_string());
    assert!(inventory_interactions(&mut world, &mut panel, Interaction::Clicked, &herbs()));
    assert_eq!(health(&world), 9);
    assert_eq!(panel.0, "");
    assert!(inventory_interactions(&mut world, &mut panel, Interaction::Clicked, &herbs()));
    assert_eq!(health(&world), 10);
    assert!(inventory_interactions(&mut world, &mut panel, Interaction::Clicked, &herbs()));
    assert_eq!(health(&world), 10);
}

#[test]
fn using_anything_else_heals_nothing() {
    let mut world = world_with_ship(8, 10);
    let mut panel = PanelMainText("something".to_string());
    assert!(inventory_interactions(&mut world, &mut panel, Interaction::Clicked, &gold()));
    assert_eq!(health(&world), 8);
    assert_eq!(panel.0, "");
}

#[test]
fn hovering_an_inventory_button_describes_the_item() {
    let mut world = world_with_ship(8, 10);
    let mut panel = PanelMainText(String::new());
    assert!(!inventory_interactions(&mut world, &mut panel, Interaction::Hovered, &herbs()));
    assert_eq!(panel.0, "Herbs:\nGain Life Support.\nLeft-click to use.");
    assert_eq!(health(&world), 8);
    assert!(!inventory_interactions(&mut world, &mut panel, Interaction::Idle, &herbs()));
    assert_eq!(panel.0, "");
    assert_eq!(health(&world), 8);
}

#[test]
fn panel_shows_the_main_text_while_nothing_is_under_the_beam() {
    let world = world_with_ship(8, 10);
    let panel = PanelMainText("main".to_string());
    let text = panel_text_update(&UnderBeamItems(vec![]), &world, &panel);
    assert_eq!(text.as_deref(), Some("main"));
}

#[test]
fn panel_describes_the_item_on_top_of_the_stack() {
    let mut world = world_with_ship(8, 10);
    world.insert(Entity::from_raw(10), herbs());
    world.insert(Entity::from_raw(11), gold());
    let panel = PanelMainText("main".to_string());
    let under_beam = UnderBeamItems(vec![Entity::from_raw(10), Entity::from_raw(11)]);
    assert_eq!(
        panel_text_update(&under_beam, &world, &panel).as_deref(),
        Some("Gold\nHit Spacebar to beam up.")
    );
    let under_beam = UnderBeamItems(vec![Entity::from_raw(11), Entity::from_raw(1)]);
    assert_eq!(panel_text_update(&under_beam, &world, &panel), None);
    let under_beam = UnderBeamItems(vec![Entity::from_raw(99)]);
    assert_eq!(panel_text_update(&under_beam, &world, &panel), None);
}

#[test]
fn a_beamed_up_item_moves_from_the_world_into_the_panel() {
    let mut world = world_with_ship(8, 10);
    let item = Entity::from_raw(10);
    let panel = Entity::from_raw(20);
    let button = Entity::from_raw(21);
    world.insert(item, herbs());
    assert!(inventory_ui(&mut world, BeamUpEvent(item), panel, button));
    assert!(!world.contains(item));
    let stored = world.get(button).unwrap();
    assert_eq!(stored.inventory_button, Some(InventoryButton));
    assert_eq!(stored.parent, Some(panel));
    assert_eq!(stored.herbs, Some(Herbs));
    assert_eq!(stored.gold, None);
    assert_eq!(stored.item.as_ref().unwrap().description, "Herbs:\nGain Life Support.");
    assert_eq!(stored.item.as_ref().unwrap().texture, "resources.png");
    assert_eq!(stored.collider, None);

    assert!(!inventory_ui(&mut world, BeamUpEvent(item), panel, Entity::from_raw(22)));
    assert!(!world.contains(Entity::from_raw(22)));
    assert!(!inventory_ui(&mut world, BeamUpEvent(Entity::from_raw(1)), panel, Entity::from_raw(22)));
    assert!(world.contains(Entity::from_raw(1)));
}

#[test]
fn health_display_shows_current_and_greatest_value() {
    assert_eq!(health_ui(&Health::new(10)), "Life Support: 10/10");
    assert_eq!(health_ui(&Health { current: 9, max: 10 }), "Life Support: 9/10");
    assert_eq!(health_ui(&Health { current: 0, max: 10 }), "Life Support: 0/10");
    assert_eq!(health_ui(&Health { current: -3, max: 10 }), "Life Support: -3/10");
    assert_eq!(health_ui(&Health { current: 1234567890, max: 9007199254740993 }), "Life Support: 1234567890/9007199254740993");
    assert_eq!(
        health_ui(&Health { current: i64::MIN, max: i64::MAX }),
        format!("Life Support: {}/{}", i64::MIN, i64::MAX)
    );
    for n in [-1001i64, -100, -10, -9, 99, 100, 101, 5000, 70007] {
        assert_eq!(health_ui(&Health { current: n, max: n }), format!("Life Support: {}/{}", n, n));
    }
}

#[test]
fn the_intro_clears_the_items_shows_light_speed_and_restarts_the_dialog() {
    let e = |i: u32| Entity::from_raw(i);
    let mut world = world_with_ship(8, 10);
    world.insert(e(10), herbs());
    let mut plate = Tags::new();
    plate.parent = Some(e(10));
    world.insert(e(11), plate);
    let mut range = Tags::new();
    range.parent = Some(e(11));
    world.insert(e(12), range);
    world.insert(e(20), gold());
    let mut effect = Tags::new();
    effect.light_speed = Some(LightSpeed);
    effect.visibility = Visibility::Hidden;
    world.insert(e(30), effect);
    let mut beam = Tags::new();
    beam.parent = Some(e(1));
    beam.visibility = Visibility::Hidden;
    world.insert(e(2), beam);

    let dialog = setup_intro(&mut world);
    assert_eq!(world.entities(), vec![e(1), e(30), e(2)]);
    assert_eq!(world.get(e(30)).unwrap().visibility, Visibility::Visible);
    assert_eq!(world.get(e(2)).unwrap().visibility, Visibility::Hidden);
    assert_eq!(health(&world), 8);
    assert_eq!(
        dialog.0,
        vec![
            "\"PS: Ship is fixed with 'wasd' for travel, whatever that means\"".to_string(),
            "\"For science!\"\n- Bob.".to_string(),
            "\"With this new material I can now cancel the effects of inertia\nand safely travel at light speeds!!\"".to_string(),
            "\"Its been a journey but I finally found material 251 on the planet 3.\"".to_string(),
            "Journal Entry: Day 1 - Click".to_string(),
        ]
    );
    let mut dialog = dialog;
    let reaction = dialog_interaction_system(Interaction::Idle, &mut dialog);
    assert_eq!(reaction.text.as_deref(), Some("Journal Entry: Day 1 - Click"));
}
