use bevy::input::keyboard::KeyCode;
use bevy::input::ButtonInput;
use bevy_golf::input::{
    action_mode_shortcut, apply_mode_button_presses, mode_button_shade, music_started,
    restart_requested_on_game_over, ModeButtonShade, PointerInteraction,
};
use bevy_golf::state::{ActionMode, GameState};

#[test]
fn action_mode_shortcuts_only_apply_during_playing() {
    let mut keyboard = ButtonInput::<KeyCode>::default();
    keyboard.press(KeyCode::KeyG);
    assert_eq!(
        action_mode_shortcut(&keyboard, &GameState::Playing),
        Some(ActionMode::Golf)
    );
    assert_eq!(action_mode_shortcut(&keyboard, &GameState::HoleComplete), None);

    let mut keyboard = ButtonInput::<KeyCode>::default();
    keyboard.press(KeyCode::KeyS);
    assert_eq!(
        action_mode_shortcut(&keyboard, &GameState::Playing),
        Some(ActionMode::Gun)
    );
    assert_eq!(action_mode_shortcut(&keyboard, &GameState::GameOver), None);
}

#[test]
fn restart_available_for_all_game_over_outcomes() {
    let mut keyboard = ButtonInput::<KeyCode>::default();
    keyboard.press(KeyCode::KeyR);
    assert!(restart_requested_on_game_over(&keyboard));

    let mut keyboard = ButtonInput::<KeyCode>::default();
    keyboard.press(KeyCode::Enter);
    assert!(restart_requested_on_game_over(&keyboard));
}

#[test]
fn no_shortcut_without_key() {
    let keyboard = ButtonInput::<KeyCode>::default();
    assert_eq!(action_mode_shortcut(&keyboard, &GameState::Playing), None);
    assert!(!restart_requested_on_game_over(&keyboard));

    let mut keyboard = ButtonInput::<KeyCode>::default();
    keyboard.press(KeyCode::KeyM);
    assert_eq!(action_mode_shortcut(&keyboard, &GameState::Playing), None);
    assert!(!restart_requested_on_game_over(&keyboard));
}

#[test]
fn golf_shortcut_wins_over_shoot() {
    let mut keyboard = ButtonInput::<KeyCode>::default();
    keyboard.press(KeyCode::KeyS);
    keyboard.press(KeyCode::KeyG);
    assert_eq!(action_mode_shortcut(&keyboard, &GameState::Playing), Some(ActionMode::Golf));
}

#[test]
fn held_key_is_not_just_pressed_after_clear() {
    let mut keyboard = ButtonInput::<KeyCode>::default();
    keyboard.press(KeyCode::KeyR);
    keyboard.clear();
    assert!(!restart_requested_on_game_over(&keyboard));
}

#[test]
fn mode_button_shades() {
    let (golf, gun) = (ActionMode::Golf, ActionMode::Gun);
    assert_eq!(mode_button_shade(PointerInteraction::Pressed, golf, gun), ModeButtonShade::Pressed);
    assert_eq!(mode_button_shade(PointerInteraction::Pressed, gun, gun), ModeButtonShade::Pressed);
    assert_eq!(mode_button_shade(PointerInteraction::Hovered, gun, gun), ModeButtonShade::HoveredActive);
    assert_eq!(mode_button_shade(PointerInteraction::Hovered, golf, gun), ModeButtonShade::HoveredInactive);
    assert_eq!(mode_button_shade(PointerInteraction::Idle, golf, golf), ModeButtonShade::RestActive);
    assert_eq!(mode_button_shade(PointerInteraction::Idle, gun, golf), ModeButtonShade::RestInactive);
}

#[test]
fn last_pressed_mode_button_wins() {
    let mut mode = ActionMode::Golf;
    apply_mode_button_presses(&mut mode, &vec![]);
    assert_eq!(mode, ActionMode::Golf);

    apply_mode_button_presses(&mut mode, &vec![(PointerInteraction::Hovered, ActionMode::Gun)]);
    assert_eq!(mode, ActionMode::Golf);

    apply_mode_button_presses(
        &mut mode,
        &vec![
            (PointerInteraction::Pressed, ActionMode::Gun),
            (PointerInteraction::Idle, ActionMode::Golf),
        ],
    );
    assert_eq!(mode, ActionMode::Gun);

    apply_mode_button_presses(
        &mut mode,
        &vec![
            (PointerInteraction::Pressed, ActionMode::Gun),
            (PointerInteraction::Pressed, ActionMode::Golf),
        ],
    );
    assert_eq!(mode, ActionMode::Golf);
}

#[test]
fn music_starts_on_first_input_and_keeps_playing() {
    assert!(!music_started(false, false, false, false));
    assert!(music_started(false, true, false, false));
    assert!(music_started(false, false, true, false));
    assert!(music_started(false, false, false, true));
    assert!(music_started(true, false, false, false));
}
