use vstd::prelude::*;

verus! {

/// Number of holes in a run.
pub const TOTAL_HOLES: usize = 6;

/// Strokes added to the current hole and to each remaining hole when the zombies
/// reach the ball.
pub const DEATH_STROKE_PENALTY: u32 = 10;

/// Phase of the game.
#[derive(Clone, Copy, Debug, PartialEq, Eq, Structural)]
pub enum GameState {
    /// The ball is in play; the player aims, swings and shoots.
    Playing,
    /// Waiting between holes (timer and message overlay).
    HoleComplete,
    /// The run is over, by finishing the last hole or by dying.
    GameOver,
}

/// What a tap or click does during play.
#[derive(Clone, Copy, Debug, PartialEq, Eq, Structural)]
pub enum ActionMode {
    /// Swing the ball.
    Golf,
    /// Fire at zombies.
    Gun,
}

/// How the run ended.
#[derive(Clone, Copy, Debug, PartialEq, Eq, Structural)]
pub enum RunOutcome {
    /// The last hole was finished.
    Victory,
    /// A zombie reached the ball.
    Death,
}

/// A state change queued for the next frame, or none.
#[derive(Clone, Copy, Debug, PartialEq, Eq, Structural)]
pub enum NextState {
    /// No change is queued.
    Unchanged,
    /// A change to the given state is queued.
    Pending(GameState),
}

/// Whether the queued state change is the move to [`GameState::HoleComplete`].
pub fn hole_completion_pending(next_state: &NextState) -> (pending: bool)
    ensures
        pending == (*next_state == NextState::Pending(GameState::HoleComplete)),
{
    match next_state {
        NextState::Pending(GameState::HoleComplete) => true,
        _ => false,
    }
}

} // verus!
