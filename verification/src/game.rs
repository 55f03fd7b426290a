//! One frame of the game: the engines in the order in which they must run.

use vstd::prelude::*;
use crate::aggro::{aggro_after, aggro_movement, handle_aggro, pursuit};
use crate::beams::{
    after_beam_input, after_boost_input, beam_input, beam_up, beam_up_transfer, boost_input,
    stored, BeamUpEvent, UnderBeamItems,
};
use crate::damage::{
    after_damage, contact_after, handle_collision_damage, handle_collisions, handle_damage,
    some_ship_lost, targeting,
};
use crate::entity::Entity;
use crate::movement::{after_movement, movement_input, MoveKeys};
use crate::physics::CollisionEvent;
use crate::world::{Tags, World};
use crate::AppState;

verus! {

/// What the outside world reports for one frame.
#[derive(Debug)]
pub struct FrameInput {
    /// The contact events of the frame, in the order they were raised.
    pub collision_events: Vec<CollisionEvent>,
    /// Time since the previous frame, in nanoseconds.
    pub delta_nanos: u64,
    /// The movement keys held during the frame.
    pub keys: MoveKeys,
    /// The beam button went down in this frame.
    pub beam_pressed: bool,
    /// The beam button came up in this frame.
    pub beam_released: bool,
    /// The boost key went down in this frame.
    pub boost_pressed: bool,
    /// The boost key came up in this frame.
    pub boost_released: bool,
    /// The beam-up key went down in this frame.
    pub beam_up_pressed: bool,
}

impl FrameInput {
    /// A frame in which no time passes and nothing happens.
    pub fn new() -> (input: FrameInput)
        ensures
            input.collision_events@ == Seq::<CollisionEvent>::empty(),
            input.delta_nanos == 0,
            input.keys == (MoveKeys { up: false, down: false, left: false, right: false }),
            !input.beam_pressed,
            !input.beam_released,
            !input.boost_pressed,
            !input.boost_released,
            !input.beam_up_pressed,
    {
        FrameInput {
            collision_events: Vec::new(),
            delta_nanos: 0,
            keys: MoveKeys { up: false, down: false, left: false, right: false },
            beam_pressed: false,
            beam_released: false,
            boost_pressed: false,
            boost_released: false,
            beam_up_pressed: false,
        }
    }
}

/// What one frame asks of the outside world.
#[derive(Clone, Copy, Debug, PartialEq, Eq, Structural)]
pub struct FrameOutput {
    /// The item that was beamed up, if one was.
    pub beam_up: Option<BeamUpEvent>,
    /// The state the game is to enter, if it is to leave the current one.
    pub next_state: Option<AppState>,
}

/// A game session: its top-level state, its entities, and the items under
/// the beam.
#[derive(Debug)]
pub struct Game {
    pub state: AppState,
    pub world: World,
    pub under_beam: UnderBeamItems,
}

/// The world after the input edges and held keys of a frame were applied.
pub open spec fn steered(m: Map<Entity, Tags>, input: FrameInput) -> Map<Entity, Tags> {
    after_boost_input(
        after_beam_input(after_movement(m, input.keys), input.beam_pressed, input.beam_released),
        input.boost_pressed,
        input.boost_released,
    )
}

/// World and stack after the contact events of a frame went to all three
/// engines that listen to them.
pub open spec fn ingested(m: Map<Entity, Tags>, stack: Seq<Entity>, events: Seq<CollisionEvent>) -> (
    Map<Entity, Tags>,
    Seq<Entity>,
) {
    let (m1, s1) = targeting(m, stack, events);
    (contact_after(aggro_after(m1, events), events), s1)
}

/// The world after pursuit was steered and `delta` nanoseconds of contact
/// damage passed.
pub open spec fn reacted(m: Map<Entity, Tags>, delta: int) -> Map<Entity, Tags> {
    after_damage(pursuit(m), delta)
}

/// World and stack of a running game just before the beam-up command of the
/// frame is carried out.
pub open spec fn before_transfer(m: Map<Entity, Tags>, stack: Seq<Entity>, input: FrameInput) -> (
    Map<Entity, Tags>,
    Seq<Entity>,
) {
    let (m1, s1) = ingested(steered(m, input), stack, input.collision_events@);
    (reacted(m1, input.delta_nanos as int), s1)
}

/// The world of a running game just before the contact damage of the frame
/// passes.
pub open spec fn before_damage(m: Map<Entity, Tags>, stack: Seq<Entity>, input: FrameInput) -> Map<
    Entity,
    Tags,
> {
    pursuit(ingested(steered(m, input), stack, input.collision_events@).0)
}

/// Whether a frame on the given state, world, stack and input asks for the
/// game to be over: the game is running, and the contact damage of the frame
/// brings a ship down.
pub open spec fn asks_game_over(
    state: AppState,
    m: Map<Entity, Tags>,
    stack: Seq<Entity>,
    input: FrameInput,
) -> bool {
    state == AppState::InGame && some_ship_lost(
        before_damage(m, stack, input),
        before_transfer(m, stack, input).0,
    )
}

/// The state that a frame leaves the game in.
pub open spec fn state_after(
    state: AppState,
    m: Map<Entity, Tags>,
    stack: Seq<Entity>,
    input: FrameInput,
) -> AppState {
    if asks_game_over(state, m, stack, input) {
        AppState::GameOver
    } else {
        state
    }
}

/// Whether `states` are the states that the game goes through when it runs
/// the frames of `inputs` on the worlds and stacks given with them, with
/// nothing else changing its state.
pub open spec fn follows(
    states: Seq<AppState>,
    worlds: Seq<Map<Entity, Tags>>,
    stacks: Seq<Seq<Entity>>,
    inputs: Seq<FrameInput>,
) -> bool {
    &&& states.len() == inputs.len() + 1
    &&& worlds.len() == inputs.len()
    &&& stacks.len() == inputs.len()
    &&& forall|i: int|
        0 <= i < inputs.len() ==> #[trigger] states[i + 1] == state_after(
            states[i],
            worlds[i],
            stacks[i],
            inputs[i],
        )
}

/// Once a frame has asked for the game to be over, the game stays over.
proof fn lemma_over_stays(
    states: Seq<AppState>,
    worlds: Seq<Map<Entity, Tags>>,
    stacks: Seq<Seq<Entity>>,
    inputs: Seq<FrameInput>,
    i: int,
    j: int,
)
    requires
        follows(states, worlds, stacks, inputs),
        0 <= i < j <= inputs.len(),
        asks_game_over(states[i], worlds[i], stacks[i], inputs[i]),
    ensures
        states[j] == AppState::GameOver,
    decreases j - i,
{
    if j > i + 1 {
        lemma_over_stays(states, worlds, stacks, inputs, i, j - 1);
        assert(states[(j - 1) + 1] == state_after(
            states[j - 1],
            worlds[j - 1],
            stacks[j - 1],
            inputs[j - 1],
        ));
    }
}

/// However many frames run and whatever they are given, at most one of them
/// asks for the game to be over: the frame in which contact damage first
/// brings a ship down. No frame after it asks again.
pub proof fn lemma_game_over_once(
    states: Seq<AppState>,
    worlds: Seq<Map<Entity, Tags>>,
    stacks: Seq<Seq<Entity>>,
    inputs: Seq<FrameInput>,
    i: int,
    j: int,
)
    requires
        follows(states, worlds, stacks, inputs),
        0 <= i < j < inputs.len(),
        asks_game_over(states[i], worlds[i], stacks[i], inputs[i]),
    ensures
        !asks_game_over(states[j], worlds[j], stacks[j], inputs[j]),
{
    lemma_over_stays(states, worlds, stacks, inputs, i, j);
}

impl Game {
    /// A session at the main menu, with no entities and nothing under the
    /// beam.
    pub fn new() -> (game: Game)
        ensures
            game.state == AppState::MainMenu,
            game.world@ == Map::<Entity, Tags>::empty(),
            game.world.order() == Seq::<Entity>::empty(),
            game.under_beam.0@ == Seq::<Entity>::empty(),
    {
        Game { state: AppState::MainMenu, world: World::new(), under_beam: UnderBeamItems(Vec::new()) }
    }

    /// Runs one frame.
    ///
    /// The input edges and held keys are applied in every state. While the
    /// game is running, the contact events are then taken in by the
    /// targeting, pursuit and damage engines, before anything reacts to what
    /// they leave behind: pursuit is steered, contact damage passes, and the
    /// beam-up command is carried out. The game is over, once, in the frame
    /// in which contact damage brings a ship down.
    pub fn update(&mut self, input: &FrameInput) -> (output: FrameOutput)
        ensures
            final(self).world.order() == old(self).world.order(),
            final(self).state == state_after(
                old(self).state,
                old(self).world@,
                old(self).under_beam.0@,
                *input,
            ),
            output.next_state == if asks_game_over(
                old(self).state,
                old(self).world@,
                old(self).under_beam.0@,
                *input,
            ) {
                Some(AppState::GameOver)
            } else {
                None
            },
            old(self).state != AppState::InGame ==> {
                &&& final(self).world@ == steered(old(self).world@, *input)
                &&& final(self).under_beam.0@ == old(self).under_beam.0@
                &&& output == (FrameOutput { beam_up: None, next_state: None })
            },
            old(self).state == AppState::InGame ==> {
                let (m, stack) = before_transfer(
                    old(self).world@,
                    old(self).under_beam.0@,
                    *input,
                );
                &&& final(self).under_beam.0@ == if input.beam_up_pressed && stack.len() > 0 {
                    stack.drop_last()
                } else {
                    stack
                }
                &&& match beam_up_transfer(m, stack, input.beam_up_pressed) {
                    Some((item, ship)) => output.beam_up == Some(BeamUpEvent(item)) && stored(
                        m,
                        final(self).world@,
                        ship,
                        m[item].item->0,
                    ),
                    None => output.beam_up is None && final(self).world@ == m,
                }
            },
    {
        movement_input(&mut self.world, &input.keys);
        beam_input(&mut self.world, input.beam_pressed, input.beam_released);
        boost_input(&mut self.world, input.boost_pressed, input.boost_released);
        match self.state {
            AppState::InGame => {
                handle_collisions(&mut self.world, &input.collision_events, &mut self.under_beam);
                handle_aggro(&mut self.world, &input.collision_events);
                handle_collision_damage(&mut self.world, &input.collision_events);
                aggro_movement(&mut self.world);
                let next_state = handle_damage(&mut self.world, input.delta_nanos);
                let beam_up = beam_up(input.beam_up_pressed, &mut self.world, &mut self.under_beam);
                if next_state.is_some() {
                    self.state = AppState::GameOver;
                }
                FrameOutput { beam_up, next_state }
            },
            _ => FrameOutput { beam_up: None, next_state: None },
        }
    }
}

} // verus!
