//! What the menus, the dialog and the inventory panel decide. Laying them out
//! and drawing them is left to the renderer.

use vstd::prelude::*;
use vstd::string::StringExecFns;
use crate::beams::{BeamUpEvent, UnderBeamItems};
use crate::entity::Entity;
use crate::level::Health;
use crate::world::{
    bare_tags, is_item, items, lemma_assemble_pointwise, without_families, Tags, Visibility, World,
};
use crate::AppState;

verus! {

/// What the pointer does to a button.
#[derive(Clone, Copy, Debug, PartialEq, Eq, Structural)]
pub enum Interaction {
    Clicked,
    Hovered,
    /// The pointer is elsewhere.
    Idle,
}

/// The lines of the intro dialog that are still to be shown, the next one
/// last.
#[derive(Debug)]
pub struct DialogState(pub Vec<String>);

/// The text of the side panel while nothing is under the beam.
#[derive(Debug)]
pub struct PanelMainText(pub String);

/// Marks a button of the inventory panel.
#[derive(Clone, Copy, Debug, PartialEq, Eq, Structural)]
pub struct InventoryButton;

/// What the start button asks for.
#[derive(Debug)]
pub struct MenuReaction {
    /// The state to enter, if the button was clicked.
    pub next_state: Option<AppState>,
    /// The new label of the button, if it changes.
    pub label: Option<String>,
}

/// What the dialog box asks for.
#[derive(Debug)]
pub struct DialogReaction {
    /// The new text of the box, if it changes.
    pub text: Option<String>,
    /// The new width of its border in pixels, if it changes.
    pub border: Option<u32>,
    /// The state to enter, if the dialog is over.
    pub next_state: Option<AppState>,
}

/// The line that the dialog shows: the last of those left, or nothing.
pub open spec fn dialog_line(lines: Seq<String>) -> Seq<char> {
    if lines.len() > 0 {
        lines.last()@
    } else {
        Seq::empty()
    }
}

/// Reacts to the pointer on the start button: a click starts the intro,
/// hovering marks the label, leaving restores it.
pub fn menu_button_interactions_system(interaction: Interaction) -> (reaction: MenuReaction)
    ensures
        reaction.next_state == if interaction == Interaction::Clicked {
            Some(AppState::Intro)
        } else {
            None
        },
        match interaction {
            Interaction::Clicked => reaction.label is None,
            Interaction::Hovered => reaction.label is Some && reaction.label->0@
                == "- New Game -"@,
            Interaction::Idle => reaction.label is Some && reaction.label->0@ == "New Game"@,
        },
{
    match interaction {
        Interaction::Clicked => MenuReaction { next_state: Some(AppState::Intro), label: None },
        Interaction::Hovered => MenuReaction {
            next_state: None,
            label: Some(String::from_str("- New Game -")),
        },
        Interaction::Idle => MenuReaction {
            next_state: None,
            label: Some(String::from_str("New Game")),
        },
    }
}

/// The line that the dialog shows.
fn current_line(dialog_state: &DialogState) -> (line: String)
    ensures
        line@ == dialog_line(dialog_state.0@),
{
    let n = dialog_state.0.len();
    if n > 0 {
        dialog_state.0[n - 1].clone()
    } else {
        String::new()
    }
}

/// Reacts to the pointer on the dialog box.
///
/// A click drops the line on show and shows the next; when none is left the
/// game begins. Hovering draws a border of two pixels. Leaving removes the
/// border and shows the current line again.
pub fn dialog_interaction_system(interaction: Interaction, dialog_state: &mut DialogState) -> (reaction:
    DialogReaction)
    ensures
        final(dialog_state).0@ == if interaction == Interaction::Clicked && old(dialog_state).0@.len()
            > 0 {
            old(dialog_state).0@.drop_last()
        } else {
            old(dialog_state).0@
        },
        match interaction {
            Interaction::Clicked => {
                &&& reaction.text is Some
                &&& reaction.text->0@ == dialog_line(final(dialog_state).0@)
                &&& reaction.border is None
                &&& reaction.next_state == if final(dialog_state).0@.len() == 0 {
                    Some(AppState::InGame)
                } else {
                    None
                }
            },
            Interaction::Idle => {
                &&& reaction.text is Some
                &&& reaction.text->0@ == dialog_line(old(dialog_state).0@)
                &&& reaction.border == Some(0u32)
                &&& reaction.next_state is None
            },
            Interaction::Hovered => {
                &&& reaction.text is None
                &&& reaction.border == Some(2u32)
                &&& reaction.next_state is None
            },
        },
{
    match interaction {
        Interaction::Clicked => {
            dialog_state.0.pop();
            let text = current_line(dialog_state);
            let next_state = if dialog_state.0.len() == 0 {
                Some(AppState::InGame)
            } else {
                None
            };
            DialogReaction { text: Some(text), border: None, next_state }
        },
        Interaction::Idle => DialogReaction {
            text: Some(current_line(dialog_state)),
            border: Some(0),
            next_state: None,
        },
        Interaction::Hovered => DialogReaction { text: None, border: Some(2), next_state: None },
    }
}

/// `t` after a healing item was used: a ship with health below its maximum
/// gains a point.
pub open spec fn healed(t: Tags) -> Tags {
    match (t.ship, t.health) {
        (Some(_), Some(health)) => if health.current < health.max {
            Tags {
                health: Some(Health { current: (health.current + 1) as i64, max: health.max }),
                ..t
            }
        } else {
            t
        },
        _ => t,
    }
}

/// The world after a healing item was used.
pub open spec fn after_healing(m: Map<Entity, Tags>) -> Map<Entity, Tags> {
    Map::new(|e: Entity| m.contains_key(e), |e: Entity| healed(m[e]))
}

/// What the side panel says of an item in the inventory.
pub open spec fn use_hint(description: Seq<char>) -> Seq<char> {
    description + "\nLeft-click to use."@
}

/// What the side panel says of the item under the beam.
pub open spec fn beam_hint(description: Seq<char>) -> Seq<char> {
    description + "\nHit Spacebar to beam up."@
}

/// Gives every ship with health below its maximum one point.
fn heal_ships(world: &mut World)
    ensures
        final(world)@ == after_healing(old(world)@),
        final(world).order() == old(world).order(),
{
    proof {
        use_type_invariant(&*world);
    }
    let n = world.tags.len();
    let mut i: usize = 0;
    while i < n
        invariant
            i <= n,
            n == world.tags@.len(),
            world.entities@ == old(world).entities@,
            world.entities@.no_duplicates(),
            world.tags@.len() == old(world).tags@.len(),
            world.entities@.len() == n,
            forall|k: int| 0 <= k < i ==> world.tags@[k] == healed(old(world).tags@[k]),
            forall|k: int| i <= k < n ==> world.tags@[k] == old(world).tags@[k],
        decreases n - i,
    {
        if world.tags[i].ship.is_some() {
            if let Some(health) = world.tags[i].health {
                if health.current < health.max {
                    let mut health = health;
                    health.heal();
                    world.tags[i].health = Some(health);
                }
            }
        }
        i += 1;
    }
    proof {
        let before = old(world)@;
        let after = world@;
        assert forall|e: Entity| before.contains_key(e) implies after.contains_key(e) && after[e]
            == healed(before[e]) by {
            lemma_assemble_pointwise(world.entities@, old(world).tags@, world.tags@, e);
        }
    }
}

/// Reacts to the pointer on the inventory button that stands for `button`.
///
/// A click uses the item: herbs heal every ship by a point, up to its
/// maximum; the panel text is cleared, and the answer `true` asks for the
/// button to be removed. Hovering describes the item in the panel. Leaving
/// clears the panel.
pub fn inventory_interactions(
    world: &mut World,
    panel_main_text: &mut PanelMainText,
    interaction: Interaction,
    button: &Tags,
) -> (used: bool)
    ensures
        used == (interaction == Interaction::Clicked),
        final(world).order() == old(world).order(),
        final(world)@ == if interaction == Interaction::Clicked && button.herbs is Some {
            after_healing(old(world)@)
        } else {
            old(world)@
        },
        final(panel_main_text).0@ == match interaction {
            Interaction::Hovered => match button.item {
                Some(item) => use_hint(item.description@),
                None => old(panel_main_text).0@,
            },
            _ => Seq::<char>::empty(),
        },
{
    match interaction {
        Interaction::Clicked => {
            if button.herbs.is_some() {
                heal_ships(world);
            }
            panel_main_text.0 = String::new();
            true
        },
        Interaction::Idle => {
            panel_main_text.0 = String::new();
            false
        },
        Interaction::Hovered => {
            if let Some(item) = &button.item {
                panel_main_text.0 = item.description.clone().concat("\nLeft-click to use.");
            }
            false
        },
    }
}

/// The text that the side panel is to show, if it is to change: the main text
/// while nothing is under the beam, else the description of the item on top
/// with the hint to beam it up. It stays as it is while the entity on top is
/// no item.
pub fn panel_text_update(
    under_beam: &UnderBeamItems,
    world: &World,
    panel_main_text: &PanelMainText,
) -> (text: Option<String>)
    ensures
        match text {
            Some(text) => if under_beam.0@.len() == 0 {
                text@ == panel_main_text.0@
            } else {
                is_item(world@, under_beam.0@.last()) && text@ == beam_hint(
                    world@[under_beam.0@.last()].item->0.description@,
                )
            },
            None => under_beam.0@.len() > 0 && !is_item(
                world@,
                under_beam.0@.last(),
            ),
        },
{
    let n = under_beam.0.len();
    if n == 0 {
        return Some(panel_main_text.0.clone());
    }
    match world.get(under_beam.0[n - 1]) {
        Some(tags) => match &tags.item {
            Some(item) => Some(item.description.clone().concat("\nHit Spacebar to beam up.")),
            None => None,
        },
        None => None,
    }
}

/// The inventory button that stands for a beamed-up entity with the tags
/// `t`: a child of `panel` that carries the item data and the marks of what
/// the item is.
pub open spec fn button_for(t: Tags, panel: Entity) -> Tags {
    Tags {
        parent: Some(panel),
        item: t.item,
        herbs: t.herbs,
        organism: t.organism,
        yellow_organism: t.yellow_organism,
        gold: t.gold,
        element251: t.element251,
        water: t.water,
        weapon_artifact: t.weapon_artifact,
        shield_artifact: t.shield_artifact,
        inventory_button: Some(InventoryButton),
        ..bare_tags()
    }
}

/// The world after the item named by `event`, if it still is one, moved from
/// the world into the inventory panel as `button`.
pub open spec fn after_inventory_ui(
    m: Map<Entity, Tags>,
    event: BeamUpEvent,
    panel: Entity,
    button: Entity,
) -> Map<Entity, Tags> {
    if is_item(m, event.0) {
        m.insert(button, button_for(m[event.0], panel)).remove(event.0)
    } else {
        m
    }
}

/// Moves a beamed-up item from the world into the inventory panel.
///
/// If the entity that the event names is still an item, `button` is stored as
/// a child of `inventory_panel` with a copy of the item data and of the marks
/// of what the item is, the entity itself leaves the world, and the answer is
/// `true`. Otherwise nothing happens.
pub fn inventory_ui(
    world: &mut World,
    beam_up_event: BeamUpEvent,
    inventory_panel: Entity,
    button: Entity,
) -> (added: bool)
    ensures
        added == is_item(old(world)@, beam_up_event.0),
        final(world)@ == after_inventory_ui(
            old(world)@,
            beam_up_event,
            inventory_panel,
            button,
        ),
{
    let mut tags = Tags::new();
    match world.get(beam_up_event.0) {
        Some(beamed) => match &beamed.item {
            Some(item) => {
                tags.item = Some(item.clone());
                tags.herbs = beamed.herbs;
                tags.organism = beamed.organism;
                tags.yellow_organism = beamed.yellow_organism;
                tags.gold = beamed.gold;
                tags.element251 = beamed.element251;
                tags.water = beamed.water;
                tags.weapon_artifact = beamed.weapon_artifact;
                tags.shield_artifact = beamed.shield_artifact;
            },
            None => {
                return false;
            },
        },
        None => {
            return false;
        },
    }
    tags.parent = Some(inventory_panel);
    tags.inventory_button = Some(InventoryButton);
    world.insert(button, tags);
    world.despawn(beam_up_event.0);
    true
}

/// The character that stands for a digit.
pub open spec fn digit(d: int) -> char {
    if d == 0 {
        '0'
    } else if d == 1 {
        '1'
    } else if d == 2 {
        '2'
    } else if d == 3 {
        '3'
    } else if d == 4 {
        '4'
    } else if d == 5 {
        '5'
    } else if d == 6 {
        '6'
    } else if d == 7 {
        '7'
    } else if d == 8 {
        '8'
    } else {
        '9'
    }
}

/// The decimal digits of a natural number, without leading zeros.
pub open spec fn digits(n: nat) -> Seq<char>
    decreases n,
{
    if n < 10 {
        seq![digit(n as int)]
    } else {
        digits(n / 10).push(digit((n % 10) as int))
    }
}

/// An integer written in decimal, with a minus sign if it is negative.
pub open spec fn decimal(n: int) -> Seq<char> {
    if n < 0 {
        seq!['-'] + digits((-n) as nat)
    } else {
        digits(n as nat)
    }
}

/// What the health display says.
pub open spec fn health_line(health: Health) -> Seq<char> {
    "Life Support: "@ + decimal(health.current as int) + "/"@ + decimal(health.max as int)
}

/// The text of one digit.
fn digit_text(d: u64) -> (text: &'static str)
    requires
        d < 10,
    ensures
        text@ == seq![digit(d as int)],
{
    proof {
        reveal_strlit("0");
        reveal_strlit("1");
        reveal_strlit("2");
        reveal_strlit("3");
        reveal_strlit("4");
        reveal_strlit("5");
        reveal_strlit("6");
        reveal_strlit("7");
        reveal_strlit("8");
        reveal_strlit("9");
    }
    let text = if d == 0 {
        "0"
    } else if d == 1 {
        "1"
    } else if d == 2 {
        "2"
    } else if d == 3 {
        "3"
    } else if d == 4 {
        "4"
    } else if d == 5 {
        "5"
    } else if d == 6 {
        "6"
    } else if d == 7 {
        "7"
    } else if d == 8 {
        "8"
    } else {
        "9"
    };
    text
}

/// Appends the decimal digits of `n` to `out`.
fn push_digits(n: u64, out: &mut String)
    ensures
        final(out)@ == old(out)@ + digits(n as nat),
    decreases n,
{
    if n >= 10 {
        push_digits(n / 10, out);
    }
    out.append(digit_text(n % 10));
}

/// Appends `n` in decimal to `out`.
fn push_decimal(n: i64, out: &mut String)
    ensures
        final(out)@ == old(out)@ + decimal(n as int),
{
    if n < 0 {
        proof {
            reveal_strlit("-");
        }
        out.append("-");
        let magnitude: u64 = if n == i64::MIN {
            0x8000_0000_0000_0000
        } else {
            (-n) as u64
        };
        push_digits(magnitude, out);
    } else {
        push_digits(n as u64, out);
    }
}

/// What the health display is to say of `health`: its current and its
/// greatest value, in decimal.
pub fn health_ui(health: &Health) -> (text: String)
    ensures
        text@ == health_line(*health),
{
    let mut text = String::from_str("Life Support: ");
    push_decimal(health.current, &mut text);
    text.append("/");
    push_decimal(health.max, &mut text);
    text
}

/// The lines of the intro dialog, the one shown first last.
pub open spec fn intro_lines() -> Seq<Seq<char>> {
    seq![
        "\"PS: Ship is fixed with 'wasd' for travel, whatever that means\""@,
        "\"For science!\"\n- Bob."@,
        "\"With this new material I can now cancel the effects of inertia\nand safely travel at light speeds!!\""@,
        "\"Its been a journey but I finally found material 251 on the planet 3.\""@,
        "Journal Entry: Day 1 - Click"@,
    ]
}

/// `t` shown, if it is the light-speed effect.
pub open spec fn lit(t: Tags) -> Tags {
    if t.light_speed is Some {
        Tags { visibility: Visibility::Visible, ..t }
    } else {
        t
    }
}

/// The world as the intro finds it: without the items and what hangs below
/// them, and with the light-speed effect on show.
pub open spec fn at_intro(m: Map<Entity, Tags>) -> Map<Entity, Tags> {
    Map::new(
        |e: Entity| without_families(m, items(m)).contains_key(e),
        |e: Entity| lit(without_families(m, items(m))[e]),
    )
}

/// Shows every light-speed effect.
fn show_light_speed(world: &mut World)
    ensures
        final(world)@ == Map::new(
            |e: Entity| old(world)@.contains_key(e),
            |e: Entity| lit(old(world)@[e]),
        ),
{
    proof {
        use_type_invariant(&*world);
    }
    let n = world.tags.len();
    let mut i: usize = 0;
    while i < n
        invariant
            i <= n,
            n == world.tags@.len(),
            world.entities@ == old(world).entities@,
            world.entities@.no_duplicates(),
            world.tags@.len() == old(world).tags@.len(),
            world.entities@.len() == n,
            forall|k: int| 0 <= k < i ==> world.tags@[k] == lit(old(world).tags@[k]),
            forall|k: int| i <= k < n ==> world.tags@[k] == old(world).tags@[k],
        decreases n - i,
    {
        if world.tags[i].light_speed.is_some() {
            world.tags[i].visibility = Visibility::Visible;
        }
        i += 1;
    }
    proof {
        let before = old(world)@;
        let after = world@;
        assert forall|e: Entity| before.contains_key(e) implies after.contains_key(e) && after[e]
            == lit(before[e]) by {
            lemma_assemble_pointwise(world.entities@, old(world).tags@, world.tags@, e);
        }
    }
}

/// Sets the scene of the intro: the items of the level leave the world with
/// all that hangs below them, the light-speed effect goes on show, and the
/// dialog starts over with all its lines.
pub fn setup_intro(world: &mut World) -> (dialog: DialogState)
    ensures
        final(world)@ == at_intro(old(world)@),
        dialog.0@.len() == intro_lines().len(),
        forall|i: int| 0 <= i < dialog.0@.len() ==> (#[trigger] dialog.0@[i])@ == intro_lines()[i],
{
    world.despawn_items();
    show_light_speed(world);
    let mut lines: Vec<String> = Vec::new();
    lines.push(
        String::from_str("\"PS: Ship is fixed with 'wasd' for travel, whatever that means\""),
    );
    lines.push(String::from_str("\"For science!\"\n- Bob."));
    lines.push(
        String::from_str(
            "\"With this new material I can now cancel the effects of inertia\nand safely travel at light speeds!!\"",
        ),
    );
    lines.push(
        String::from_str(
            "\"Its been a journey but I finally found material 251 on the planet 3.\"",
        ),
    );
    lines.push(String::from_str("Journal Entry: Day 1 - Click"));
    DialogState(lines)
}

} // verus!
