use vstd::prelude::*;

use bevy::input::keyboard::KeyCode;
use bevy::input::ButtonInput;

use crate::state::{ActionMode, GameState};

verus! {

/// Bevy's keyboard key code, carried through opaquely.
#[verifier::external_type_specification]
#[verifier::external_body]
pub struct ExKeyCode(KeyCode);

/// Bevy's button-state resource: the buttons held, just pressed and just released in
/// the current frame. Its contents are seen only through [`just_pressed_keys`].
#[verifier::external_type_specification]
#[verifier::external_body]
#[verifier::reject_recursive_types(T)]
pub struct ExButtonInput<T: Copy + Eq + std::hash::Hash + Send + Sync + 'static>(ButtonInput<T>);

/// The keys whose presses the game reacts to.
#[derive(Clone, Copy, Debug, PartialEq, Eq, Structural)]
pub enum Key {
    /// Switches to golf mode.
    G,
    /// Switches to shoot mode.
    S,
    /// Restarts after game over.
    R,
    /// Restarts after game over.
    Enter,
}

/// The contents of the set of buttons that `input` registers as pressed during the
/// current frame (its `just_pressed` set), restricted to the keys of [`Key`].
pub uninterp spec fn just_pressed_keys(input: ButtonInput<KeyCode>) -> Set<Key>;

/// Calls `ButtonInput::just_pressed` with the key code that `key` names
/// (`KeyG`, `KeyS`, `KeyR` or `Enter`); that method answers whether the code is in the
/// set of buttons pressed during the current frame.
#[verifier::external_body]
fn key_just_pressed(input: &ButtonInput<KeyCode>, key: Key) -> (pressed: bool)
    ensures
        pressed == just_pressed_keys(*input).contains(key),
{
    let code = match key {
        Key::G => KeyCode::KeyG,
        Key::S => KeyCode::KeyS,
        Key::R => KeyCode::KeyR,
        Key::Enter => KeyCode::Enter,
    };
    input.just_pressed(code)
}

/// Whether a restart was requested on the game-over screen: R or Enter was just pressed.
pub fn restart_requested_on_game_over(keyboard: &ButtonInput<KeyCode>) -> (requested: bool)
    ensures
        requested == (just_pressed_keys(*keyboard).contains(Key::R)
            || just_pressed_keys(*keyboard).contains(Key::Enter)),
{
    key_just_pressed(keyboard, Key::R) || key_just_pressed(keyboard, Key::Enter)
}

/// The action mode that a keyboard shortcut selects: G for golf, S for shoot, G winning
/// when both were just pressed. Shortcuts apply only while playing.
pub fn action_mode_shortcut(keyboard: &ButtonInput<KeyCode>, game_state: &GameState) -> (mode:
    Option<ActionMode>)
    ensures
        mode == (if *game_state != GameState::Playing {
            None
        } else if just_pressed_keys(*keyboard).contains(Key::G) {
            Some(ActionMode::Golf)
        } else if just_pressed_keys(*keyboard).contains(Key::S) {
            Some(ActionMode::Gun)
        } else {
            None
        }),
{
    if *game_state != GameState::Playing {
        return None;
    }
    if key_just_pressed(keyboard, Key::G) {
        Some(ActionMode::Golf)
    } else if key_just_pressed(keyboard, Key::S) {
        Some(ActionMode::Gun)
    } else {
        None
    }
}

/// How the pointer currently interacts with an on-screen button.
#[derive(Clone, Copy, Debug, PartialEq, Eq, Structural)]
pub enum PointerInteraction {
    /// The button is pressed.
    Pressed,
    /// The pointer is over the button.
    Hovered,
    /// The pointer is elsewhere.
    Idle,
}

/// The look of an action-mode button.
#[derive(Clone, Copy, Debug, PartialEq, Eq, Structural)]
pub enum ModeButtonShade {
    /// Being pressed, whichever mode it selects.
    Pressed,
    /// Hovered, and its mode is the current one.
    HoveredActive,
    /// Hovered, and its mode is not the current one.
    HoveredInactive,
    /// At rest, and its mode is the current one.
    RestActive,
    /// At rest, and its mode is not the current one.
    RestInactive,
}

/// The look of the button that selects `button_mode` while `current` is the action mode.
pub fn mode_button_shade(interaction: PointerInteraction, button_mode: ActionMode, current: ActionMode) -> (shade:
    ModeButtonShade)
    ensures
        shade == (match interaction {
            PointerInteraction::Pressed => ModeButtonShade::Pressed,
            PointerInteraction::Hovered => if button_mode == current {
                ModeButtonShade::HoveredActive
            } else {
                ModeButtonShade::HoveredInactive
            },
            PointerInteraction::Idle => if button_mode == current {
                ModeButtonShade::RestActive
            } else {
                ModeButtonShade::RestInactive
            },
        }),
{
    let active = button_mode == current;
    match interaction {
        PointerInteraction::Pressed => ModeButtonShade::Pressed,
        PointerInteraction::Hovered => if active {
            ModeButtonShade::HoveredActive
        } else {
            ModeButtonShade::HoveredInactive
        },
        PointerInteraction::Idle => if active {
            ModeButtonShade::RestActive
        } else {
            ModeButtonShade::RestInactive
        },
    }
}

/// The action mode after the mode buttons whose interaction changed this frame, in
/// order: each one that is now pressed selects its mode.
pub open spec fn mode_after_presses(current: ActionMode, changes: Seq<(PointerInteraction, ActionMode)>) -> ActionMode
    decreases changes.len(),
{
    if changes.len() == 0 {
        current
    } else if changes.last().0 == PointerInteraction::Pressed {
        changes.last().1
    } else {
        mode_after_presses(current, changes.drop_last())
    }
}

/// Applies the presses of the on-screen action-mode buttons whose interaction changed
/// this frame, in order; the last pressed one decides the mode.
pub fn apply_mode_button_presses(action_mode: &mut ActionMode, changes: &Vec<(PointerInteraction, ActionMode)>)
    ensures
        *final(action_mode) == mode_after_presses(*old(action_mode), changes@),
{
    let mut i: usize = 0;
    while i < changes.len()
        invariant
            i <= changes@.len(),
            *action_mode == mode_after_presses(*old(action_mode), changes@.take(i as int)),
        decreases changes@.len() - i,
    {
        let (interaction, mode) = changes[i];
        if interaction == PointerInteraction::Pressed {
            *action_mode = mode;
        }
        proof {
            assert(changes@.take(i + 1).drop_last() =~= changes@.take(i as int));
        }
        i += 1;
    }
    proof {
        assert(changes@.take(changes@.len() as int) =~= changes@);
    }
}

/// Whether the music counts as playing after this frame: once any mouse button, key or
/// touch has been pressed, it stays playing.
pub fn music_started(already_playing: bool, mouse_pressed: bool, key_pressed: bool, touch_pressed: bool) -> (playing:
    bool)
    ensures
        playing == (already_playing || mouse_pressed || key_pressed || touch_pressed),
{
    if already_playing {
        return true;
    }
    mouse_pressed || key_pressed || touch_pressed
}

} // verus!
