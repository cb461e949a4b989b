//! The states of the application around a game, the rules that say which
//! group of systems runs in which state, and the settings of a game.

use vstd::prelude::*;
use crate::grid::TileMap;

verus! {

/// Where the application is.
#[derive(Clone, Copy, Debug, Hash, PartialEq, Eq, Structural)]
pub enum AppState {
    MainMenu,
    InGame,
}

/// Whether a game in progress is halted.
#[derive(Clone, Copy, Debug, Hash, PartialEq, Eq, Structural)]
pub enum PauseMenuState {
    Running,
    Paused,
}

impl Default for PauseMenuState {
    fn default() -> (state: Self)
        ensures
            state == PauseMenuState::Running,
    {
        PauseMenuState::Running
    }
}

/// How densely a field is mined.
#[derive(Clone, Copy, Debug, PartialEq, Eq, Structural)]
pub enum GameDifficulty {
    Easy,
    Medium,
    Hard,
    VeryHard,
    Impossible,
}

/// The systems of the main menu.
#[derive(Clone, Copy, Debug, Hash, PartialEq, Eq, Structural)]
pub struct MainMenuSet;

/// The systems of the pause menu.
#[derive(Clone, Copy, Debug, Hash, PartialEq, Eq, Structural)]
pub struct PauseMenuSet;

/// The systems of the game itself.
#[derive(Clone, Copy, Debug, Hash, PartialEq, Eq, Structural)]
pub struct GamePlaySet;

/// The grid and the difficulty of the next game.
#[derive(Clone, Copy, Debug, PartialEq, Eq, Structural)]
pub struct GridSettings {
    pub grid: TileMap,
    pub difficulty: GameDifficulty,
}

impl MainMenuSet {
    /// The main menu runs while the application is in the main menu.
    pub fn runs_in(&self, app: AppState, pause: PauseMenuState) -> (runs: bool)
        ensures
            runs == (app == AppState::MainMenu),
    {
        match app {
            AppState::MainMenu => true,
            AppState::InGame => false,
        }
    }
}

impl PauseMenuSet {
    /// The pause menu runs while a game is in progress and halted.
    pub fn runs_in(&self, app: AppState, pause: PauseMenuState) -> (runs: bool)
        ensures
            runs == (app == AppState::InGame && pause == PauseMenuState::Paused),
    {
        match (app, pause) {
            (AppState::InGame, PauseMenuState::Paused) => true,
            _ => false,
        }
    }
}

impl GamePlaySet {
    /// The game runs while a game is in progress and not halted.
    pub fn runs_in(&self, app: AppState, pause: PauseMenuState) -> (runs: bool)
        ensures
            runs == (app == AppState::InGame && pause == PauseMenuState::Running),
    {
        match (app, pause) {
            (AppState::InGame, PauseMenuState::Running) => true,
            _ => false,
        }
    }
}

/// What the main menu does in one frame: it starts a game when the start
/// key has just been pressed, and otherwise asks for no change of state.
pub fn main_menu_loop(start_pressed: bool) -> (next: Option<AppState>)
    ensures
        next == (if start_pressed {
            Some(AppState::InGame)
        } else {
            None
        }),
{
    if start_pressed {
        Some(AppState::InGame)
    } else {
        None
    }
}

impl GameDifficulty {
    /// One tile in this many holds a mine.
    pub open spec fn tiles_per_mine(self) -> nat {
        match self {
            GameDifficulty::Easy => 10,
            GameDifficulty::Medium => 7,
            GameDifficulty::Hard => 5,
            GameDifficulty::VeryHard => 4,
            GameDifficulty::Impossible => 3,
        }
    }

    /// The number of mines on a field of `number_of_tiles` tiles: the
    /// difficulty's share of the tiles, rounded down.
    pub open spec fn mines_for(self, number_of_tiles: nat) -> nat {
        number_of_tiles / self.tiles_per_mine()
    }

    /// The number of mines on a field of `number_of_tiles` tiles.
    pub fn amount_of_mines(&self, number_of_tiles: u32) -> (amount: u32)
        ensures
            amount == self.mines_for(number_of_tiles as nat),
            number_of_tiles > 0 ==> amount < number_of_tiles,
    {
        match self {
            GameDifficulty::Easy => number_of_tiles / 10,
            GameDifficulty::Medium => number_of_tiles / 7,
            GameDifficulty::Hard => number_of_tiles / 5,
            GameDifficulty::VeryHard => number_of_tiles / 4,
            GameDifficulty::Impossible => number_of_tiles / 3,
        }
    }
}

} // verus!
