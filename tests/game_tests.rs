use black_quartz::{
    check_loading_progress, collision_detection, handle_button_interaction, DrillState,
    GameState, LoadingProgress, MenuAction, MenuButton, MenuState,
};

fn all_ready() -> LoadingProgress {
    LoadingProgress {
        loading_assets: true,
        rendering_map: true,
        spawning_player: true,
        spawning_base: true,
        init_camera: true,
    }
}

#[test]
fn loading_checklist() {
    assert_eq!(check_loading_progress(&LoadingProgress::default()), None);
    assert_eq!(check_loading_progress(&all_ready()), Some(GameState::Playing));
    let mut p = all_ready();
    p.init_camera = false;
    assert_eq!(check_loading_progress(&p), None);
    assert_eq!(GameState::default(), GameState::Loading);
    assert_eq!(MenuState::default(), MenuState::Start);
}

#[test]
fn menu_buttons() {
    let mut p = all_ready();
    assert_eq!(handle_button_interaction(MenuButton::Sell, &mut p), MenuAction::SellAll);
    assert_eq!(handle_button_interaction(MenuButton::Refill, &mut p), MenuAction::RefillTank);
    assert_eq!(
        handle_button_interaction(MenuButton::NewGame, &mut p),
        MenuAction::Switch(GameState::Rendering, MenuState::Closed)
    );
    assert_eq!(
        handle_button_interaction(MenuButton::QuitGame, &mut p),
        MenuAction::Switch(GameState::GameOver, MenuState::Closed)
    );
    assert_eq!(p, all_ready());
    assert_eq!(
        handle_button_interaction(MenuButton::Resume, &mut p),
        MenuAction::Switch(GameState::Playing, MenuState::Closed)
    );
    assert_eq!(
        p,
        LoadingProgress {
            loading_assets: true,
            rendering_map: false,
            spawning_player: false,
            spawning_base: false,
            init_camera: false,
        }
    );
}

#[test]
fn sprite_per_state() {
    assert_eq!(DrillState::Idle.atlas_index(), 2);
    assert_eq!(DrillState::Flying.atlas_index(), 3);
    assert_eq!(DrillState::Falling.atlas_index(), 1);
    assert_eq!(DrillState::Drilling.atlas_index(), 0);
}

#[test]
fn landing_in_own_column() {
    assert_eq!(collision_detection((5, 40), (0, 0), DrillState::Falling), DrillState::Idle);
    assert_eq!(collision_detection((40, 0), (0, 0), DrillState::Flying), DrillState::Flying);
    assert_eq!(collision_detection((-20, 0), (-32, -32), DrillState::Falling), DrillState::Idle);
}
