use vstd::prelude::*;

use crate::state::{ActionMode, GameState, NextState, RunOutcome, TOTAL_HOLES, DEATH_STROKE_PENALTY, hole_completion_pending};

verus! {

/// The scorecard of a run: the hole being played, the strokes taken on each hole and
/// each hole's par.
pub struct GameData {
    /// Index of the hole being played (0 for the first hole).
    pub current_hole: usize,
    /// Strokes taken on each hole.
    pub strokes: Vec<u32>,
    /// Par of each hole.
    pub par: Vec<u32>,
}

/// Par of each hole of the course, first hole first.
pub open spec fn par_table() -> Seq<u32> {
    seq![2u32, 3u32, 4u32, 4u32, 5u32, 5u32]
}

/// A stroke count of zero for each hole of the course.
pub open spec fn fresh_strokes() -> Seq<u32> {
    Seq::new(TOTAL_HOLES as nat, |i: int| 0u32)
}

/// The stroke counts after the death penalty: each hole from `from` on gets
/// [`DEATH_STROKE_PENALTY`] more strokes, the earlier ones keep theirs.
pub open spec fn penalized(strokes: Seq<u32>, from: int) -> Seq<int> {
    Seq::new(strokes.len(), |k: int| if k >= from { strokes[k] + DEATH_STROKE_PENALTY } else { strokes[k] as int })
}

/// Sum of a sequence of stroke or par counts.
pub open spec fn total(s: Seq<u32>) -> int
    decreases s.len(),
{
    if s.len() == 0 {
        0
    } else {
        total(s.drop_last()) + s.last()
    }
}

/// Sum of a sequence of integers.
pub open spec fn total_int(s: Seq<int>) -> int
    decreases s.len(),
{
    if s.len() == 0 {
        0
    } else {
        total_int(s.drop_last()) + s.last()
    }
}

/// A sum of counts is never negative.
pub proof fn lemma_total_nonnegative(s: Seq<u32>)
    ensures
        total(s) >= 0,
    decreases s.len(),
{
    if s.len() > 0 {
        lemma_total_nonnegative(s.drop_last());
    }
}

/// A prefix of a sequence of counts sums to no more than the whole sequence.
proof fn lemma_total_prefix_le(s: Seq<u32>, i: int)
    requires
        0 <= i <= s.len(),
    ensures
        total(s.take(i)) <= total(s),
    decreases s.len(),
{
    if i < s.len() {
        assert(s.take(i) =~= s.drop_last().take(i));
        lemma_total_prefix_le(s.drop_last(), i);
    } else {
        assert(s.take(i) =~= s);
    }
}

/// The sum of the counts in `v`.
pub(crate) fn sum_counts(v: &Vec<u32>) -> (sum: u32)
    requires
        total(v@) <= u32::MAX,
    ensures
        sum == total(v@),
{
    let mut acc: u32 = 0;
    let mut i: usize = 0;
    while i < v.len()
        invariant
            i <= v@.len(),
            acc == total(v@.take(i as int)),
            total(v@) <= u32::MAX,
        decreases v@.len() - i,
    {
        proof {
            assert(v@.take(i + 1).drop_last() =~= v@.take(i as int));
            lemma_total_prefix_le(v@, i + 1);
        }
        acc = acc + v[i];
        i += 1;
    }
    proof {
        assert(v@.take(v@.len() as int) =~= v@);
    }
    acc
}

impl GameData {
    /// A scorecard in the middle of a run: one stroke count and one par per hole,
    /// and the current hole one of the course's holes.
    pub open spec fn is_run_state(&self) -> bool {
        &&& self.strokes@.len() == TOTAL_HOLES
        &&& self.par@.len() == TOTAL_HOLES
        &&& self.current_hole < TOTAL_HOLES
    }

    /// The scorecard at the start of a run: first hole, no strokes yet, the course's pars.
    pub open spec fn is_fresh_run(&self) -> bool {
        &&& self.current_hole == 0
        &&& self.strokes@ == fresh_strokes()
        &&& self.par@ == par_table()
    }

    /// Counts a swing on the current hole, if the scorecard has an entry for it.
    pub fn record_stroke(&mut self)
        requires
            old(self).current_hole < old(self).strokes@.len() ==> old(self).strokes@[old(self).current_hole as int] < u32::MAX,
        ensures
            final(self).current_hole == old(self).current_hole,
            final(self).par@ == old(self).par@,
            final(self).strokes@ == (if old(self).current_hole < old(self).strokes@.len() {
                old(self).strokes@.update(old(self).current_hole as int, (old(self).strokes@[old(self).current_hole as int] + 1) as u32)
            } else {
                old(self).strokes@
            }),
            old(self).is_run_state() ==> final(self).is_run_state(),
    {
        let hole = self.current_hole;
        if hole < self.strokes.len() {
            let s = self.strokes[hole];
            self.strokes.set(hole, s + 1);
        }
    }
}

impl Default for GameData {
    /// An empty scorecard at the first hole.
    fn default() -> (data: Self)
        ensures
            data.current_hole == 0,
            data.strokes@ == Seq::<u32>::empty(),
            data.par@ == Seq::<u32>::empty(),
    {
        GameData { current_hole: 0, strokes: Vec::new(), par: Vec::new() }
    }
}

/// Par of hole `hole` (0 for the first hole).
pub fn hole_par(hole: usize) -> (par: u32)
    requires
        hole < TOTAL_HOLES,
    ensures
        par == par_table()[hole as int],
{
    match hole {
        0 => 2,
        1 => 3,
        2 => 4,
        3 => 4,
        4 => 5,
        _ => 5,
    }
}

/// The par of every hole, first hole first.
pub fn hole_pars() -> (pars: Vec<u32>)
    ensures
        pars@ == par_table(),
{
    let mut pars: Vec<u32> = Vec::new();
    let mut i: usize = 0;
    while i < TOTAL_HOLES
        invariant
            i <= TOTAL_HOLES,
            pars@ == par_table().take(i as int),
        decreases TOTAL_HOLES - i,
    {
        pars.push(hole_par(i));
        proof {
            assert(par_table().take(i as int).push(par_table()[i as int]) =~= par_table().take(i + 1));
        }
        i += 1;
    }
    proof {
        assert(par_table().take(TOTAL_HOLES as int) =~= par_table());
    }
    pars
}

/// A zeroed stroke count for each hole.
fn fresh_stroke_counts() -> (strokes: Vec<u32>)
    ensures
        strokes@ == fresh_strokes(),
{
    let mut strokes: Vec<u32> = Vec::new();
    let mut i: usize = 0;
    while i < TOTAL_HOLES
        invariant
            i <= TOTAL_HOLES,
            strokes@ == fresh_strokes().take(i as int),
        decreases TOTAL_HOLES - i,
    {
        strokes.push(0);
        proof {
            assert(fresh_strokes().take(i as int).push(0u32) =~= fresh_strokes().take(i + 1));
        }
        i += 1;
    }
    proof {
        assert(fresh_strokes().take(TOTAL_HOLES as int) =~= fresh_strokes());
    }
    strokes
}

/// Prepares the scorecard and modes for the first hole of the game: zero strokes and
/// the course's par on every hole, golf mode, and a run that has not ended in death.
/// The current hole is left as it is.
pub fn setup_first_hole(game_data: &mut GameData, action_mode: &mut ActionMode, outcome: &mut RunOutcome)
    ensures
        final(game_data).current_hole == old(game_data).current_hole,
        final(game_data).strokes@ == fresh_strokes(),
        final(game_data).par@ == par_table(),
        *final(action_mode) == ActionMode::Golf,
        *final(outcome) == RunOutcome::Victory,
        old(game_data).current_hole == 0 ==> final(game_data).is_fresh_run(),
{
    game_data.strokes = fresh_stroke_counts();
    game_data.par = hole_pars();
    *action_mode = ActionMode::Golf;
    *outcome = RunOutcome::Victory;
}

/// Starts a new run from any state: back to the first hole, zero strokes and the
/// course's par on every hole, golf mode, and an outcome of victory.
pub fn reset_run(game_data: &mut GameData, action_mode: &mut ActionMode, outcome: &mut RunOutcome)
    ensures
        final(game_data).current_hole == 0,
        final(game_data).strokes@ == fresh_strokes(),
        final(game_data).par@ == par_table(),
        final(game_data).is_run_state(),
        final(game_data).is_fresh_run(),
        *final(action_mode) == ActionMode::Golf,
        *final(outcome) == RunOutcome::Victory,
{
    game_data.current_hole = 0;
    game_data.strokes = fresh_stroke_counts();
    game_data.par = hole_pars();
    *action_mode = ActionMode::Golf;
    *outcome = RunOutcome::Victory;
}

/// Adds [`DEATH_STROKE_PENALTY`] strokes to the current hole and to every hole after it.
pub fn apply_death_penalty(game_data: &mut GameData)
    requires
        forall|k: int|
            old(game_data).current_hole <= k < old(game_data).strokes@.len() ==> old(game_data).strokes@[k] + DEATH_STROKE_PENALTY <= u32::MAX,
    ensures
        final(game_data).current_hole == old(game_data).current_hole,
        final(game_data).par@ == old(game_data).par@,
        final(game_data).strokes@.len() == old(game_data).strokes@.len(),
        forall|k: int| 0 <= k < final(game_data).strokes@.len() ==>
            final(game_data).strokes@[k] == penalized(old(game_data).strokes@, old(game_data).current_hole as int)[k],
        old(game_data).is_run_state() ==> final(game_data).is_run_state(),
{
    let n = game_data.strokes.len();
    let mut i = game_data.current_hole;
    while i < n
        invariant
            n == game_data.strokes@.len(),
            n == old(game_data).strokes@.len(),
            game_data.current_hole == old(game_data).current_hole,
            game_data.par@ == old(game_data).par@,
            old(game_data).current_hole <= i,
            forall|k: int|
                old(game_data).current_hole <= k < n ==> old(game_data).strokes@[k] + DEATH_STROKE_PENALTY <= u32::MAX,
            forall|k: int| 0 <= k < n ==> game_data.strokes@[k] == (if old(game_data).current_hole <= k < i {
                old(game_data).strokes@[k] + DEATH_STROKE_PENALTY
            } else {
                old(game_data).strokes@[k] as int
            }),
        decreases n - i,
    {
        let s = game_data.strokes[i];
        game_data.strokes.set(i, s + DEATH_STROKE_PENALTY);
        i += 1;
    }
}

/// The number of holes from `from` to the end of a scorecard of `len` holes.
pub open spec fn holes_from(len: nat, from: int) -> nat {
    if from >= len {
        0
    } else if from <= 0 {
        len
    } else {
        (len - from) as nat
    }
}

/// The death penalty raises the total of a scorecard by [`DEATH_STROKE_PENALTY`] for
/// the current hole and for each hole after it.
pub proof fn lemma_penalty_raises_total(strokes: Seq<u32>, from: int)
    ensures
        total_int(penalized(strokes, from)) == total(strokes) + DEATH_STROKE_PENALTY * holes_from(strokes.len(), from),
    decreases strokes.len(),
{
    if strokes.len() > 0 {
        let rest = strokes.drop_last();
        assert(penalized(strokes, from).drop_last() =~= penalized(rest, from));
        lemma_penalty_raises_total(rest, from);
    } else {
        assert(penalized(strokes, from) =~= Seq::<int>::empty());
    }
}

/// What follows the end of a hole's transition countdown.
#[derive(Clone, Copy, Debug, PartialEq, Eq, Structural)]
pub enum HoleTransition {
    /// The last hole is done: the run is over.
    GameOver,
    /// Play moves on to the hole with this index.
    NextHole(usize),
}

/// Moves the scorecard past a completed hole: to the next hole while one is left,
/// otherwise leaves it at the last hole and ends the run.
pub fn advance_after_hole(game_data: &mut GameData) -> (step: HoleTransition)
    requires
        old(game_data).current_hole < usize::MAX,
    ensures
        final(game_data).strokes@ == old(game_data).strokes@,
        final(game_data).par@ == old(game_data).par@,
        old(game_data).current_hole + 1 >= TOTAL_HOLES ==> step == HoleTransition::GameOver
            && final(game_data).current_hole == old(game_data).current_hole,
        old(game_data).current_hole + 1 < TOTAL_HOLES ==> step == HoleTransition::NextHole((old(game_data).current_hole + 1) as usize)
            && final(game_data).current_hole == old(game_data).current_hole + 1,
        old(game_data).is_run_state() ==> final(game_data).is_run_state(),
{
    let next_hole = game_data.current_hole + 1;
    if next_hole >= TOTAL_HOLES {
        HoleTransition::GameOver
    } else {
        game_data.current_hole = next_hole;
        HoleTransition::NextHole(next_hole)
    }
}

/// Whether sinking the ball completes a hole of the run (the scorecard is still on one
/// of the course's holes).
pub fn sinking_completes_hole(game_data: &GameData) -> (completes: bool)
    ensures
        completes == (game_data.current_hole < TOTAL_HOLES),
{
    game_data.current_hole < TOTAL_HOLES
}

/// Handles a frame in which `touched` says whether a zombie reached the ball. Unless
/// the move to the hole-complete state is already queued, a touch ends the run in death
/// with the death penalty; the result says whether the game must move to game over.
pub fn resolve_zombie_contact(
    next_state: &NextState,
    touched: bool,
    game_data: &mut GameData,
    outcome: &mut RunOutcome,
) -> (game_over: bool)
    requires
        touched && *next_state != NextState::Pending(GameState::HoleComplete) ==> forall|k: int|
            old(game_data).current_hole <= k < old(game_data).strokes@.len() ==> old(game_data).strokes@[k] + DEATH_STROKE_PENALTY <= u32::MAX,
    ensures
        game_over == (touched && *next_state != NextState::Pending(GameState::HoleComplete)),
        game_over ==> *final(outcome) == RunOutcome::Death,
        game_over ==> final(game_data).current_hole == old(game_data).current_hole
            && final(game_data).par@ == old(game_data).par@
            && final(game_data).strokes@.len() == old(game_data).strokes@.len()
            && forall|k: int| 0 <= k < final(game_data).strokes@.len() ==>
                final(game_data).strokes@[k] == penalized(old(game_data).strokes@, old(game_data).current_hole as int)[k],
        !game_over ==> *final(outcome) == *old(outcome) && final(game_data).current_hole == old(game_data).current_hole
            && final(game_data).strokes@ == old(game_data).strokes@ && final(game_data).par@ == old(game_data).par@,
        old(game_data).is_run_state() ==> final(game_data).is_run_state(),
{
    if hole_completion_pending(next_state) {
        return false;
    }
    if !touched {
        return false;
    }
    *outcome = RunOutcome::Death;
    apply_death_penalty(game_data);
    true
}

} // verus!
