use bevy_golf::game::GameData;
use bevy_golf::messages::{game_over_message, hole_complete_message, hole_label, score_text};
use bevy_golf::state::RunOutcome;
use bevy_golf::text::push_decimal;

fn data(current_hole: usize, strokes: Vec<u32>, par: Vec<u32>) -> GameData {
    GameData { current_hole, strokes, par }
}

#[test]
fn game_over_messages_include_restart_hint_for_both_outcomes() {
    let game_data = GameData {
        current_hole: 3,
        strokes: vec![2, 3, 5, 14, 10, 10],
        par: vec![2, 3, 4, 4, 5, 5],
    };

    let death_msg = game_over_message(&game_data, RunOutcome::Death);
    let victory_msg = game_over_message(&game_data, RunOutcome::Victory);

    assert!(death_msg.contains("Press R or Enter to restart."));
    assert!(victory_msg.contains("Press R or Enter to restart."));
    assert!(death_msg.contains("You have died!"));
    assert!(death_msg.contains("Death penalty"));
}

#[test]
fn decimal_numerals() {
    for (n, expected) in [(0u64, "0"), (7, "7"), (10, "10"), (305, "305"), (1234567890, "1234567890")] {
        let mut s = String::from("x");
        push_decimal(&mut s, n);
        assert_eq!(s, format!("x{}", expected));
    }
    let mut s = String::new();
    push_decimal(&mut s, u64::MAX);
    assert_eq!(s, u64::MAX.to_string());
}

#[test]
fn initial_score_line_matches_the_first_hud_text() {
    let g = data(0, vec![0; 6], vec![2, 3, 4, 4, 5, 5]);
    assert_eq!(score_text(&g), "Hole 1 / 6  |  Par 2  |  Strokes: 0");
}

#[test]
fn score_line_reads_current_hole() {
    let g = data(3, vec![2, 3, 5, 7, 0, 0], vec![2, 3, 4, 4, 5, 5]);
    assert_eq!(score_text(&g), "Hole 4 / 6  |  Par 4  |  Strokes: 7");
    let g = data(6, vec![2, 3, 5, 7, 0, 0], vec![2, 3, 4, 4, 5, 5]);
    assert_eq!(score_text(&g), "Hole 7 / 6  |  Par 0  |  Strokes: 0");
}

#[test]
fn hole_labels() {
    assert_eq!(hole_label(0), "Hole 1  \u{2014}  Par 2");
    assert_eq!(hole_label(5), "Hole 6  \u{2014}  Par 5");
}

#[test]
fn hole_complete_messages() {
    let under = data(2, vec![0, 0, 3, 0, 0, 0], vec![2, 3, 4, 4, 5, 5]);
    assert_eq!(
        hole_complete_message(&under),
        "Hole 3 complete!\nStrokes: 3   Par: 4\n\u{1F985} Under par!\n\nNext hole in 3 s \u{2026}"
    );
    let even = data(0, vec![2, 0, 0, 0, 0, 0], vec![2, 3, 4, 4, 5, 5]);
    assert_eq!(
        hole_complete_message(&even),
        "Hole 1 complete!\nStrokes: 2   Par: 2\nPar!\n\nNext hole in 3 s \u{2026}"
    );
    let over = data(5, vec![0, 0, 0, 0, 0, 12], vec![2, 3, 4, 4, 5, 5]);
    assert_eq!(
        hole_complete_message(&over),
        "Hole 6 complete!\nStrokes: 12   Par: 5\nOver par\n\nNext hole in 3 s \u{2026}"
    );
}

#[test]
fn victory_message_in_full() {
    let g = data(5, vec![2, 3, 4, 4, 5, 4], vec![2, 3, 4, 4, 5, 5]);
    assert_eq!(
        game_over_message(&g, RunOutcome::Victory),
        "\u{1F3C6}  Game Complete!\n\n  Hole 1:  2 strokes  (par 2)\n  Hole 2:  3 strokes  (par 3)\n  Hole 3:  4 strokes  (par 4)\n  Hole 4:  4 strokes  (par 4)\n  Hole 5:  5 strokes  (par 5)\n  Hole 6:  4 strokes  (par 5)\n\nTotal: 22 strokes  \u{2014}  1 under par\n\nPress R or Enter to restart."
    );
}

#[test]
fn death_message_in_full() {
    let g = data(3, vec![2, 3, 5, 14, 10, 10], vec![2, 3, 4, 4, 5, 5]);
    assert_eq!(
        game_over_message(&g, RunOutcome::Death),
        "\u{1F480}  You have died!\n\n  Hole 1:  2 strokes  (par 2)\n  Hole 2:  3 strokes  (par 3)\n  Hole 3:  5 strokes  (par 4)\n  Hole 4:  14 strokes  (par 4)\n  Hole 5:  10 strokes  (par 5)\n  Hole 6:  10 strokes  (par 5)\n\nZombies reached the ball.\nDeath penalty: +10 strokes for each remaining hole.\n\nTotal: 44 strokes  \u{2014}  21 over par\n\nPress R or Enter to restart."
    );
}

#[test]
fn even_par_and_short_scorecard() {
    let g = data(0, vec![2, 3], vec![2, 3, 4]);
    assert_eq!(
        game_over_message(&g, RunOutcome::Victory),
        "\u{1F3C6}  Game Complete!\n\n  Hole 1:  2 strokes  (par 2)\n  Hole 2:  3 strokes  (par 3)\n\nTotal: 5 strokes  \u{2014}  4 under par\n\nPress R or Enter to restart."
    );
    let g = data(0, vec![2, 3, 4], vec![2, 3, 4]);
    assert!(game_over_message(&g, RunOutcome::Victory).contains("Total: 9 strokes  \u{2014}  Even par"));
    let g = data(0, vec![], vec![]);
    assert_eq!(
        game_over_message(&g, RunOutcome::Victory),
        "\u{1F3C6}  Game Complete!\n\n\n\nTotal: 0 strokes  \u{2014}  Even par\n\nPress R or Enter to restart."
    );
}
