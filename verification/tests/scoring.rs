use bevy_golf::game::{
    advance_after_hole, apply_death_penalty, hole_par, hole_pars, reset_run, resolve_zombie_contact,
    setup_first_hole, sinking_completes_hole, GameData, HoleTransition,
};
use bevy_golf::state::{hole_completion_pending, ActionMode, GameState, NextState, RunOutcome};

fn data(current_hole: usize, strokes: Vec<u32>, par: Vec<u32>) -> GameData {
    GameData { current_hole, strokes, par }
}

#[test]
fn death_penalty_applies_to_current_and_remaining_holes() {
    let mut game_data = GameData {
        current_hole: 2,
        strokes: vec![2, 3, 1, 0, 0, 0],
        par: vec![2, 3, 4, 4, 5, 5],
    };

    apply_death_penalty(&mut game_data);

    assert_eq!(game_data.strokes, vec![2, 3, 11, 10, 10, 10]);
}

#[test]
fn hole_completion_pending_only_for_hole_complete_state() {
    assert!(hole_completion_pending(&NextState::Pending(GameState::HoleComplete)));
    assert!(!hole_completion_pending(&NextState::Pending(GameState::GameOver)));
    assert!(!hole_completion_pending(&NextState::Unchanged));
}

#[test]
fn hole_completion_pending_false_for_playing() {
    assert!(!hole_completion_pending(&NextState::Pending(GameState::Playing)));
}

#[test]
fn death_penalty_on_last_hole_only_touches_last_hole() {
    let mut g = data(5, vec![1, 1, 1, 1, 1, 1], vec![2, 3, 4, 4, 5, 5]);
    apply_death_penalty(&mut g);
    assert_eq!(g.strokes, vec![1, 1, 1, 1, 1, 11]);
    assert_eq!(g.current_hole, 5);
    assert_eq!(g.par, vec![2, 3, 4, 4, 5, 5]);
}

#[test]
fn death_penalty_past_the_scorecard_changes_nothing() {
    let mut g = data(7, vec![1, 2, 3], vec![2, 3, 4]);
    apply_death_penalty(&mut g);
    assert_eq!(g.strokes, vec![1, 2, 3]);
}

#[test]
fn death_penalty_raises_total_by_ten_per_remaining_hole() {
    let mut g = data(2, vec![2, 3, 1, 0, 0, 0], vec![2, 3, 4, 4, 5, 5]);
    let before: u32 = g.strokes.iter().sum();
    apply_death_penalty(&mut g);
    let after: u32 = g.strokes.iter().sum();
    assert_eq!(after, before + 10 * 4);
}

#[test]
fn pars_of_the_course() {
    assert_eq!(hole_pars(), vec![2, 3, 4, 4, 5, 5]);
    assert_eq!(hole_par(0), 2);
    assert_eq!(hole_par(3), 4);
    assert_eq!(hole_par(5), 5);
}

#[test]
fn default_scorecard_is_empty_at_first_hole() {
    let g = GameData::default();
    assert_eq!(g.current_hole, 0);
    assert!(g.strokes.is_empty());
    assert!(g.par.is_empty());
}

#[test]
fn setup_first_hole_fills_scorecard_and_keeps_hole() {
    let mut g = GameData::default();
    let mut mode = ActionMode::Gun;
    let mut outcome = RunOutcome::Death;
    setup_first_hole(&mut g, &mut mode, &mut outcome);
    assert_eq!(g.current_hole, 0);
    assert_eq!(g.strokes, vec![0; 6]);
    assert_eq!(g.par, vec![2, 3, 4, 4, 5, 5]);
    assert_eq!(mode, ActionMode::Golf);
    assert_eq!(outcome, RunOutcome::Victory);

    let mut g = data(3, vec![9], vec![1]);
    setup_first_hole(&mut g, &mut mode, &mut outcome);
    assert_eq!(g.current_hole, 3);
}

#[test]
fn reset_run_starts_over_from_any_state() {
    let mut g = data(4, vec![2, 3, 5, 14, 10, 10], vec![2, 3, 4, 4, 5, 5]);
    let mut mode = ActionMode::Gun;
    let mut outcome = RunOutcome::Death;
    reset_run(&mut g, &mut mode, &mut outcome);
    assert_eq!(g.current_hole, 0);
    assert_eq!(g.strokes, vec![0; 6]);
    assert_eq!(g.par, vec![2, 3, 4, 4, 5, 5]);
    assert_eq!(mode, ActionMode::Golf);
    assert_eq!(outcome, RunOutcome::Victory);
}

#[test]
fn record_stroke_counts_on_current_hole_only() {
    let mut g = data(1, vec![0, 0, 0, 0, 0, 0], vec![2, 3, 4, 4, 5, 5]);
    g.record_stroke();
    g.record_stroke();
    assert_eq!(g.strokes, vec![0, 2, 0, 0, 0, 0]);

    let mut g = data(6, vec![0, 0, 0, 0, 0, 0], vec![2, 3, 4, 4, 5, 5]);
    g.record_stroke();
    assert_eq!(g.strokes, vec![0; 6]);
}

#[test]
fn holes_follow_in_order_then_game_over() {
    let mut g = data(0, vec![0; 6], vec![2, 3, 4, 4, 5, 5]);
    for expected in 1..6 {
        assert_eq!(advance_after_hole(&mut g), HoleTransition::NextHole(expected));
        assert_eq!(g.current_hole, expected);
    }
    assert_eq!(advance_after_hole(&mut g), HoleTransition::GameOver);
    assert_eq!(g.current_hole, 5);
}

#[test]
fn sinking_completes_only_course_holes() {
    assert!(sinking_completes_hole(&data(0, vec![], vec![])));
    assert!(sinking_completes_hole(&data(5, vec![], vec![])));
    assert!(!sinking_completes_hole(&data(6, vec![], vec![])));
}

#[test]
fn zombie_contact_kills_and_penalizes() {
    let mut g = data(3, vec![2, 3, 5, 4, 0, 0], vec![2, 3, 4, 4, 5, 5]);
    let mut outcome = RunOutcome::Victory;
    assert!(resolve_zombie_contact(&NextState::Unchanged, true, &mut g, &mut outcome));
    assert_eq!(outcome, RunOutcome::Death);
    assert_eq!(g.strokes, vec![2, 3, 5, 14, 10, 10]);
}

#[test]
fn zombie_contact_ignored_when_hole_is_complete() {
    let mut g = data(3, vec![2, 3, 5, 4, 0, 0], vec![2, 3, 4, 4, 5, 5]);
    let mut outcome = RunOutcome::Victory;
    let pending = NextState::Pending(GameState::HoleComplete);
    assert!(!resolve_zombie_contact(&pending, true, &mut g, &mut outcome));
    assert_eq!(outcome, RunOutcome::Victory);
    assert_eq!(g.strokes, vec![2, 3, 5, 4, 0, 0]);
}

#[test]
fn no_contact_changes_nothing() {
    let mut g = data(1, vec![1, 1, 0, 0, 0, 0], vec![2, 3, 4, 4, 5, 5]);
    let mut outcome = RunOutcome::Victory;
    assert!(!resolve_zombie_contact(&NextState::Unchanged, false, &mut g, &mut outcome));
    assert_eq!(outcome, RunOutcome::Victory);
    assert_eq!(g.strokes, vec![1, 1, 0, 0, 0, 0]);
}
