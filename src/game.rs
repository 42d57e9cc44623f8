//! The game's states, the loading checklist and what the menu buttons do.

use vstd::prelude::*;

verus! {

/// The state of the game as a whole.
#[derive(Clone, Copy, PartialEq, Eq, Debug, Hash, Structural)]
pub enum GameState {
    Loading,
    MainMenu,
    Rendering,
    Menu,
    Playing,
    GameOver,
}

impl Default for GameState {
    fn default() -> (r: GameState)
        ensures
            r == GameState::Loading,
    {
        GameState::Loading
    }
}

/// Which menu, if any, is shown.
#[derive(Clone, Copy, PartialEq, Eq, Debug, Hash, Structural)]
pub enum MenuState {
    Closed,
    Start,
    GameOver,
    Settings,
    Inventory,
    WorldBase,
}

impl Default for MenuState {
    fn default() -> (r: MenuState)
        ensures
            r == MenuState::Start,
    {
        MenuState::Start
    }
}

/// The buttons of the menus.
#[derive(Clone, Copy, PartialEq, Eq, Debug, Structural)]
pub enum MenuButton {
    Sell,
    Refill,
    Resume,
    NewGame,
    QuitGame,
}

/// What is ready before play can start.
#[derive(Clone, Copy, PartialEq, Eq, Debug, Structural)]
pub struct LoadingProgress {
    pub loading_assets: bool,
    pub rendering_map: bool,
    pub spawning_player: bool,
    pub spawning_base: bool,
    pub init_camera: bool,
}

impl Default for LoadingProgress {
    /// Nothing ready yet.
    fn default() -> (r: LoadingProgress)
        ensures
            !r.loading_assets && !r.rendering_map && !r.spawning_player && !r.spawning_base
                && !r.init_camera,
    {
        LoadingProgress {
            loading_assets: false,
            rendering_map: false,
            spawning_player: false,
            spawning_base: false,
            init_camera: false,
        }
    }
}

/// What pressing a menu button asks for.
#[derive(Clone, Copy, PartialEq, Eq, Debug, Structural)]
pub enum MenuAction {
    /// Sell the whole hold.
    SellAll,
    /// Refill the fuel tank.
    RefillTank,
    /// Move the game and the menu to these states.
    Switch(GameState, MenuState),
}

/// Play starts once everything on the checklist is ready.
pub fn check_loading_progress(progress: &LoadingProgress) -> (r: Option<GameState>)
    ensures
        r == if progress.loading_assets && progress.rendering_map && progress.spawning_player
            && progress.spawning_base && progress.init_camera {
            Some(GameState::Playing)
        } else {
            None::<GameState>
        },
{
    if progress.loading_assets && progress.rendering_map && progress.spawning_player
        && progress.spawning_base && progress.init_camera {
        Some(GameState::Playing)
    } else {
        None
    }
}

/// What a pressed button does. `Sell` and `Refill` act on the player's hold
/// and tank; `NewGame` renders a new world; `Resume` clears the checklist
/// (all but the loaded assets) and returns to play; `QuitGame` ends the game.
/// Each of the last three closes the menu.
pub fn handle_button_interaction(button: MenuButton, progress: &mut LoadingProgress) -> (r:
    MenuAction)
    ensures
        r == match button {
            MenuButton::Sell => MenuAction::SellAll,
            MenuButton::Refill => MenuAction::RefillTank,
            MenuButton::NewGame => MenuAction::Switch(GameState::Rendering, MenuState::Closed),
            MenuButton::Resume => MenuAction::Switch(GameState::Playing, MenuState::Closed),
            MenuButton::QuitGame => MenuAction::Switch(GameState::GameOver, MenuState::Closed),
        },
        *final(progress) == if button == MenuButton::Resume {
            LoadingProgress {
                loading_assets: old(progress).loading_assets,
                rendering_map: false,
                spawning_player: false,
                spawning_base: false,
                init_camera: false,
            }
        } else {
            *old(progress)
        },
{
    match button {
        MenuButton::Sell => MenuAction::SellAll,
        MenuButton::Refill => MenuAction::RefillTank,
        MenuButton::NewGame => MenuAction::Switch(GameState::Rendering, MenuState::Closed),
        MenuButton::Resume => {
            progress.spawning_base = false;
            progress.rendering_map = false;
            progress.spawning_player = false;
            progress.init_camera = false;
            MenuAction::Switch(GameState::Playing, MenuState::Closed)
        },
        MenuButton::QuitGame => MenuAction::Switch(GameState::GameOver, MenuState::Closed),
    }
}

} // verus!
