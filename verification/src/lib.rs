//! Gameplay core of a top-down exploration game: a ship targets items with a
//! beam, collects them into a bounded inventory, and is chased and damaged by
//! hostile organisms.

use vstd::prelude::*;

pub mod entity;
pub mod timer;
pub mod ship;
pub mod physics;
pub mod movement;
pub mod animation;
pub mod aggro;
pub mod camera;
pub mod beams;
pub mod level;
pub mod world;
pub mod damage;
pub mod game;
pub mod ui;
pub mod spawn;

verus! {

/// The top-level states of the game.
#[derive(Clone, Copy, Debug, PartialEq, Eq, Hash, Structural)]
pub enum AppState {
    MainMenu,
    Intro,
    InGame,
    GameOver,
}

impl Default for AppState {
    fn default() -> (state: AppState)
        ensures
            state == AppState::MainMenu,
    {
        AppState::MainMenu
    }
}

} // verus!
