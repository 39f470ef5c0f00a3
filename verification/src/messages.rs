use vstd::prelude::*;

use crate::game::{GameData, par_table, total, sum_counts, lemma_total_nonnegative};
use crate::state::{RunOutcome, TOTAL_HOLES, DEATH_STROKE_PENALTY};
use crate::text::{decimal, push_decimal};

verus! {

/// The entry of `s` at index `i`, or 0 where `s` has none.
pub open spec fn entry_or_zero(s: Seq<u32>, i: int) -> nat {
    if 0 <= i < s.len() {
        s[i] as nat
    } else {
        0
    }
}

/// The entry of `v` at index `i`, or 0 where `v` has none.
fn get_or_zero(v: &Vec<u32>, i: usize) -> (x: u32)
    ensures
        x == entry_or_zero(v@, i as int),
{
    if i < v.len() {
        v[i]
    } else {
        0
    }
}

/// The HUD line for hole `hole` (0-based) with the given scorecard.
pub open spec fn score_line(hole: nat, strokes: Seq<u32>, par: Seq<u32>) -> Seq<char> {
    "Hole "@ + decimal(hole + 1) + " / "@ + decimal(TOTAL_HOLES as nat) + "  |  Par "@
        + decimal(entry_or_zero(par, hole as int)) + "  |  Strokes: "@ + decimal(entry_or_zero(strokes, hole as int))
}

/// The HUD score line: hole number out of the total, the hole's par and the strokes
/// taken on it (0 where the scorecard has no entry).
pub fn score_text(game_data: &GameData) -> (text: String)
    requires
        game_data.current_hole < usize::MAX,
    ensures
        text@ == score_line(game_data.current_hole as nat, game_data.strokes@, game_data.par@),
{
    let hole = game_data.current_hole;
    let strokes = get_or_zero(&game_data.strokes, hole);
    let par = get_or_zero(&game_data.par, hole);
    let mut text = String::from_str("Hole ");
    push_decimal(&mut text, (hole + 1) as u64);
    text.append(" / ");
    push_decimal(&mut text, TOTAL_HOLES as u64);
    text.append("  |  Par ");
    push_decimal(&mut text, par as u64);
    text.append("  |  Strokes: ");
    push_decimal(&mut text, strokes as u64);
    text
}

/// The label shown under the course of hole `hole_idx` (0-based): its number and par.
pub open spec fn hole_label_line(hole_idx: nat) -> Seq<char> {
    "Hole "@ + decimal(hole_idx + 1) + "  \u{2014}  Par "@ + decimal(par_table()[hole_idx as int] as nat)
}

/// The label shown under the course of hole `hole_idx`: its number and par.
pub fn hole_label(hole_idx: usize) -> (text: String)
    requires
        hole_idx < TOTAL_HOLES,
    ensures
        text@ == hole_label_line(hole_idx as nat),
{
    let mut text = String::from_str("Hole ");
    push_decimal(&mut text, (hole_idx + 1) as u64);
    text.append("  \u{2014}  Par ");
    push_decimal(&mut text, crate::game::hole_par(hole_idx) as u64);
    text
}

/// How a hole's strokes compare with its par.
pub open spec fn par_verdict(strokes: nat, par: nat) -> Seq<char> {
    if strokes < par {
        "\u{1F985} Under par!"@
    } else if strokes == par {
        "Par!"@
    } else {
        "Over par"@
    }
}

/// The overlay shown when hole `hole` (0-based) is complete.
pub open spec fn hole_complete_line(hole: nat, strokes: Seq<u32>, par: Seq<u32>) -> Seq<char> {
    let s = entry_or_zero(strokes, hole as int);
    let p = entry_or_zero(par, hole as int);
    "Hole "@ + decimal(hole + 1) + " complete!\nStrokes: "@ + decimal(s) + "   Par: "@ + decimal(p) + "\n"@
        + par_verdict(s, p) + "\n\nNext hole in 3 s \u{2026}"@
}

/// The overlay shown when the current hole is complete: its number, strokes and par
/// (0 where the scorecard has no entry), how the strokes compare with par, and the
/// announcement of the next hole.
pub fn hole_complete_message(game_data: &GameData) -> (text: String)
    requires
        game_data.current_hole < usize::MAX,
    ensures
        text@ == hole_complete_line(game_data.current_hole as nat, game_data.strokes@, game_data.par@),
{
    let hole = game_data.current_hole;
    let strokes = get_or_zero(&game_data.strokes, hole);
    let par = get_or_zero(&game_data.par, hole);
    let verdict = if strokes < par {
        "\u{1F985} Under par!"
    } else if strokes == par {
        "Par!"
    } else {
        "Over par"
    };
    let mut text = String::from_str("Hole ");
    push_decimal(&mut text, (hole + 1) as u64);
    text.append(" complete!\nStrokes: ");
    push_decimal(&mut text, strokes as u64);
    text.append("   Par: ");
    push_decimal(&mut text, par as u64);
    text.append("\n");
    text.append(verdict);
    text.append("\n\nNext hole in 3 s \u{2026}");
    text
}

/// One scorecard row of the game-over screen: hole `i` (0-based), its strokes and par.
pub open spec fn scorecard_line(i: nat, strokes: u32, par: u32) -> Seq<char> {
    "  Hole "@ + decimal(i + 1) + ":  "@ + decimal(strokes as nat) + " strokes  (par "@ + decimal(par as nat) + ")"@
}

/// The number of scorecard rows: one per hole that has both a stroke count and a par.
pub open spec fn scorecard_rows(strokes: Seq<u32>, par: Seq<u32>) -> nat {
    if strokes.len() <= par.len() {
        strokes.len()
    } else {
        par.len()
    }
}

/// The first `n` scorecard rows, one per line.
pub open spec fn scorecard(strokes: Seq<u32>, par: Seq<u32>, n: nat) -> Seq<char>
    decreases n,
{
    if n == 0 {
        Seq::empty()
    } else if n == 1 {
        scorecard_line(0, strokes[0], par[0])
    } else {
        scorecard(strokes, par, (n - 1) as nat) + "\n"@ + scorecard_line((n - 1) as nat, strokes[n - 1], par[n - 1])
    }
}

/// Total strokes minus total par, each total read as a 32-bit signed number.
pub open spec fn par_difference(strokes: Seq<u32>, par: Seq<u32>) -> int {
    (total(strokes) as i32) - (total(par) as i32)
}

/// How far a run's total is from par.
pub open spec fn difference_text(diff: int) -> Seq<char> {
    if diff < 0 {
        decimal((-diff) as nat) + " under par"@
    } else if diff == 0 {
        "Even par"@
    } else {
        decimal(diff as nat) + " over par"@
    }
}

/// The heading of the game-over screen.
pub open spec fn run_title(outcome: RunOutcome) -> Seq<char> {
    match outcome {
        RunOutcome::Victory => "\u{1F3C6}  Game Complete!"@,
        RunOutcome::Death => "\u{1F480}  You have died!"@,
    }
}

/// The closing summary of the game-over screen: the total and how it compares with par,
/// after an account of the death penalty where the run ended in death.
pub open spec fn run_summary(outcome: RunOutcome, strokes: Seq<u32>, par: Seq<u32>) -> Seq<char> {
    let tail = "Total: "@ + decimal(total(strokes) as nat) + " strokes  \u{2014}  "@ + difference_text(par_difference(strokes, par));
    match outcome {
        RunOutcome::Victory => tail,
        RunOutcome::Death => "Zombies reached the ball.\nDeath penalty: +"@ + decimal(DEATH_STROKE_PENALTY as nat)
            + " strokes for each remaining hole.\n\n"@ + tail,
    }
}

/// The hint that ends the game-over screen.
pub open spec fn restart_hint() -> Seq<char> {
    "\n\nPress R or Enter to restart."@
}

/// The game-over screen: heading, scorecard, summary and restart hint.
pub open spec fn game_over_text(strokes: Seq<u32>, par: Seq<u32>, outcome: RunOutcome) -> Seq<char> {
    run_title(outcome) + "\n\n"@ + scorecard(strokes, par, scorecard_rows(strokes, par)) + "\n\n"@
        + run_summary(outcome, strokes, par) + restart_hint()
}

/// The scorecards for which the game-over screen can be computed: both totals fit in
/// 32 bits, and their difference (read as signed numbers) and its negation fit in a
/// 32-bit signed number.
pub open spec fn game_over_text_defined(strokes: Seq<u32>, par: Seq<u32>) -> bool {
    &&& total(strokes) <= u32::MAX
    &&& total(par) <= u32::MAX
    &&& i32::MIN < par_difference(strokes, par) <= i32::MAX
}

/// Builds one scorecard row.
fn scorecard_row(i: usize, strokes: u32, par: u32) -> (text: String)
    requires
        i < usize::MAX,
    ensures
        text@ == scorecard_line(i as nat, strokes, par),
{
    let mut text = String::from_str("  Hole ");
    push_decimal(&mut text, (i + 1) as u64);
    text.append(":  ");
    push_decimal(&mut text, strokes as u64);
    text.append(" strokes  (par ");
    push_decimal(&mut text, par as u64);
    text.append(")");
    text
}

/// The game-over screen for the scorecard and the way the run ended: a heading, one
/// row per hole with strokes and par, the total and its difference from par (with the
/// death penalty explained after a death), and the hint that R or Enter restarts.
pub fn game_over_message(game_data: &GameData, outcome: RunOutcome) -> (text: String)
    requires
        game_over_text_defined(game_data.strokes@, game_data.par@),
    ensures
        text@ == game_over_text(game_data.strokes@, game_data.par@, outcome),
{
    let total_strokes = sum_counts(&game_data.strokes);
    let total_par = sum_counts(&game_data.par);
    let diff: i32 = (total_strokes as i32) - (total_par as i32);

    let mut diff_text = String::new();
    if diff < 0 {
        push_decimal(&mut diff_text, (-diff) as u64);
        diff_text.append(" under par");
    } else if diff == 0 {
        diff_text.append("Even par");
    } else {
        push_decimal(&mut diff_text, diff as u64);
        diff_text.append(" over par");
    }
    proof {
        let d = par_difference(game_data.strokes@, game_data.par@);
        if d < 0 {
            assert(Seq::<char>::empty() + decimal((-d) as nat) =~= decimal((-d) as nat));
        } else if d == 0 {
            assert(Seq::<char>::empty() + "Even par"@ =~= "Even par"@);
        } else {
            assert(Seq::<char>::empty() + decimal(d as nat) =~= decimal(d as nat));
        }
    }

    let rows = if game_data.strokes.len() <= game_data.par.len() {
        game_data.strokes.len()
    } else {
        game_data.par.len()
    };
    let mut card = String::new();
    let mut i: usize = 0;
    while i < rows
        invariant
            rows == scorecard_rows(game_data.strokes@, game_data.par@),
            i <= rows,
            card@ == scorecard(game_data.strokes@, game_data.par@, i as nat),
        decreases rows - i,
    {
        let row = scorecard_row(i, game_data.strokes[i], game_data.par[i]);
        if i > 0 {
            card.append("\n");
        }
        card.append(row.as_str());
        proof {
            if i == 0 {
                assert(Seq::<char>::empty() + row@ =~= row@);
            }
        }
        i += 1;
    }

    let mut tail = String::from_str("Total: ");
    push_decimal(&mut tail, total_strokes as u64);
    tail.append(" strokes  \u{2014}  ");
    tail.append(diff_text.as_str());
    let summary = match outcome {
        RunOutcome::Victory => tail,
        RunOutcome::Death => {
            let mut death = String::from_str("Zombies reached the ball.\nDeath penalty: +");
            push_decimal(&mut death, DEATH_STROKE_PENALTY as u64);
            death.append(" strokes for each remaining hole.\n\n");
            death.append(tail.as_str());
            death
        },
    };

    let title = match outcome {
        RunOutcome::Victory => "\u{1F3C6}  Game Complete!",
        RunOutcome::Death => "\u{1F480}  You have died!",
    };
    let mut text = String::from_str(title);
    text.append("\n\n");
    text.append(card.as_str());
    text.append("\n\n");
    text.append(summary.as_str());
    text.append("\n\nPress R or Enter to restart.");
    text
}

/// `part` occurs somewhere in `text`.
pub open spec fn contains_text(text: Seq<char>, part: Seq<char>) -> bool {
    exists|i: int| 0 <= i && i + part.len() <= text.len() && #[trigger] text.subrange(i, i + part.len()) == part
}

/// Text that occurs in `b` occurs in `a + b`.
proof fn lemma_contains_after(a: Seq<char>, b: Seq<char>, part: Seq<char>)
    requires
        contains_text(b, part),
    ensures
        contains_text(a + b, part),
{
    let i = choose|i: int| 0 <= i && i + part.len() <= b.len() && #[trigger] b.subrange(i, i + part.len()) == part;
    assert((a + b).subrange(a.len() + i, a.len() + i + part.len()) =~= b.subrange(i, i + part.len()));
}

/// Text that occurs in `a` occurs in `a + b`.
proof fn lemma_contains_before(a: Seq<char>, b: Seq<char>, part: Seq<char>)
    requires
        contains_text(a, part),
    ensures
        contains_text(a + b, part),
{
    let i = choose|i: int| 0 <= i && i + part.len() <= a.len() && #[trigger] a.subrange(i, i + part.len()) == part;
    assert((a + b).subrange(i, i + part.len()) =~= a.subrange(i, i + part.len()));
}

/// Whatever the outcome, the game-over screen ends with the hint that R or Enter
/// restarts the game; after a death it also says that the player died and explains the
/// death penalty.
pub proof fn lemma_game_over_text_shows_restart_hint(strokes: Seq<u32>, par: Seq<u32>, outcome: RunOutcome)
    ensures
        game_over_text(strokes, par, outcome).len() >= restart_hint().len(),
        game_over_text(strokes, par, outcome).subrange(
            game_over_text(strokes, par, outcome).len() - restart_hint().len(),
            game_over_text(strokes, par, outcome).len() as int,
        ) == restart_hint(),
        contains_text(game_over_text(strokes, par, outcome), "Press R or Enter to restart."@),
        outcome == RunOutcome::Death ==> contains_text(game_over_text(strokes, par, outcome), "You have died!"@),
        outcome == RunOutcome::Death ==> contains_text(game_over_text(strokes, par, outcome), "Death penalty"@),
{
    let title = run_title(outcome);
    let card = scorecard(strokes, par, scorecard_rows(strokes, par));
    let summary = run_summary(outcome, strokes, par);
    let body = title + "\n\n"@ + card + "\n\n"@ + summary;
    let text = game_over_text(strokes, par, outcome);
    assert(text == body + restart_hint());
    assert(text.subrange(body.len() as int, text.len() as int) =~= restart_hint());

    reveal_strlit("\n\nPress R or Enter to restart.");
    reveal_strlit("Press R or Enter to restart.");
    assert(restart_hint().subrange(2, 2int + "Press R or Enter to restart."@.len()) =~= "Press R or Enter to restart."@);
    lemma_contains_after(body, restart_hint(), "Press R or Enter to restart."@);

    if outcome == RunOutcome::Death {
        reveal_strlit("\u{1F480}  You have died!");
        reveal_strlit("You have died!");
        assert(title.subrange(3, 3int + "You have died!"@.len()) =~= "You have died!"@);
        lemma_contains_before(title, "\n\n"@, "You have died!"@);
        lemma_contains_before(title + "\n\n"@, card, "You have died!"@);
        lemma_contains_before(title + "\n\n"@ + card, "\n\n"@, "You have died!"@);
        lemma_contains_before(title + "\n\n"@ + card + "\n\n"@, summary, "You have died!"@);
        lemma_contains_before(body, restart_hint(), "You have died!"@);

        let opening = "Zombies reached the ball.\nDeath penalty: +"@;
        reveal_strlit("Zombies reached the ball.\nDeath penalty: +");
        reveal_strlit("Death penalty");
        assert(opening.subrange(26, 26int + "Death penalty"@.len()) =~= "Death penalty"@);
        let with_count = opening + decimal(DEATH_STROKE_PENALTY as nat);
        let with_rest = with_count + " strokes for each remaining hole.\n\n"@;
        let tail = "Total: "@ + decimal(total(strokes) as nat) + " strokes  \u{2014}  "@ + difference_text(par_difference(strokes, par));
        lemma_contains_before(opening, decimal(DEATH_STROKE_PENALTY as nat), "Death penalty"@);
        lemma_contains_before(with_count, " strokes for each remaining hole.\n\n"@, "Death penalty"@);
        lemma_contains_before(with_rest, tail, "Death penalty"@);
        assert(summary == with_rest + tail);
        lemma_contains_after(title + "\n\n"@ + card + "\n\n"@, summary, "Death penalty"@);
        lemma_contains_before(body, restart_hint(), "Death penalty"@);
    }
}

/// `text` begins with `head`.
pub open spec fn starts_with(text: Seq<char>, head: Seq<char>) -> bool {
    head.len() <= text.len() && text.subrange(0, head.len() as int) == head
}

/// `text` finishes with `tail`.
pub open spec fn ends_with(text: Seq<char>, tail: Seq<char>) -> bool {
    tail.len() <= text.len() && text.subrange(text.len() - tail.len(), text.len() as int) == tail
}

proof fn lemma_starts_with_append(a: Seq<char>, b: Seq<char>)
    ensures
        starts_with(a + b, a),
{
    assert((a + b).subrange(0, a.len() as int) =~= a);
}

proof fn lemma_starts_with_extend(t: Seq<char>, head: Seq<char>, c: Seq<char>)
    requires
        starts_with(t, head),
    ensures
        starts_with(t + c, head),
{
    assert((t + c).subrange(0, head.len() as int) =~= t.subrange(0, head.len() as int));
}

proof fn lemma_ends_with_append(a: Seq<char>, b: Seq<char>)
    ensures
        ends_with(a + b, b),
{
    assert((a + b).subrange(a.len() as int, (a + b).len() as int) =~= b);
}

proof fn lemma_ends_with_self(a: Seq<char>)
    ensures
        ends_with(a, a),
{
    assert(a.subrange(0, a.len() as int) =~= a);
}

proof fn lemma_ends_with_extend(t: Seq<char>, tail: Seq<char>, c: Seq<char>)
    requires
        ends_with(t, tail),
    ensures
        ends_with(t + c, tail + c),
{
    let k = t.len() - tail.len();
    assert((t + c).subrange(k, (t + c).len() as int) =~= t.subrange(k, t.len() as int) + c);
}

proof fn lemma_ends_with_trans(t: Seq<char>, s: Seq<char>, u: Seq<char>)
    requires
        ends_with(t, s),
        ends_with(s, u),
    ensures
        ends_with(t, u),
{
    let k = t.len() - s.len();
    assert(t.subrange(t.len() - u.len(), t.len() as int) =~= s.subrange(s.len() - u.len(), s.len() as int)) by {
        assert forall|i: int| 0 <= i < u.len() implies #[trigger] t.subrange(t.len() - u.len(), t.len() as int)[i]
            == s.subrange(s.len() - u.len(), s.len() as int)[i] by {
            assert(t.subrange(k, t.len() as int)[s.len() - u.len() + i] == t[k + s.len() - u.len() + i]);
        }
    }
}

/// The hole-complete overlay names the hole, shows the hole's own strokes and par, and
/// judges them: "Under par!" when the strokes are fewer than par, "Par!" when they equal
/// it, "Over par" when they exceed it.
pub proof fn lemma_hole_complete_verdict(hole: nat, strokes: Seq<u32>, par: Seq<u32>)
    requires
        hole < strokes.len(),
        hole < par.len(),
    ensures
        starts_with(
            hole_complete_line(hole, strokes, par),
            "Hole "@ + decimal(hole + 1) + " complete!\nStrokes: "@ + decimal(strokes[hole as int] as nat) + "   Par: "@
                + decimal(par[hole as int] as nat) + "\n"@,
        ),
        strokes[hole as int] < par[hole as int] ==> ends_with(
            hole_complete_line(hole, strokes, par),
            "\n"@ + "\u{1F985} Under par!"@ + "\n\nNext hole in 3 s \u{2026}"@,
        ),
        strokes[hole as int] == par[hole as int] ==> ends_with(
            hole_complete_line(hole, strokes, par),
            "\n"@ + "Par!"@ + "\n\nNext hole in 3 s \u{2026}"@,
        ),
        strokes[hole as int] > par[hole as int] ==> ends_with(
            hole_complete_line(hole, strokes, par),
            "\n"@ + "Over par"@ + "\n\nNext hole in 3 s \u{2026}"@,
        ),
{
    let s = strokes[hole as int] as nat;
    let p = par[hole as int] as nat;
    let lead = "Hole "@ + decimal(hole + 1) + " complete!\nStrokes: "@ + decimal(s) + "   Par: "@ + decimal(p);
    let head = lead + "\n"@;
    let verdict = par_verdict(s, p);
    let next = "\n\nNext hole in 3 s \u{2026}"@;
    assert(hole_complete_line(hole, strokes, par) == head + verdict + next);
    lemma_starts_with_append(head, verdict);
    lemma_starts_with_extend(head + verdict, head, next);
    lemma_ends_with_append(lead, "\n"@);
    lemma_ends_with_extend(head, "\n"@, verdict);
    lemma_ends_with_extend(head + verdict, "\n"@ + verdict, next);
}

/// The HUD line shows the current hole's number out of the course's holes, and the par
/// and strokes that the scorecard holds for that very hole (0 strokes only where the
/// scorecard has no entry for it).
pub proof fn lemma_score_line_reads_current_hole(hole: nat, strokes: Seq<u32>, par: Seq<u32>)
    requires
        hole < par.len(),
    ensures
        starts_with(score_line(hole, strokes, par), "Hole "@ + decimal(hole + 1) + " / "@ + decimal(6)),
        hole < strokes.len() ==> ends_with(
            score_line(hole, strokes, par),
            "  |  Par "@ + decimal(par[hole as int] as nat) + "  |  Strokes: "@ + decimal(strokes[hole as int] as nat),
        ),
        hole >= strokes.len() ==> ends_with(
            score_line(hole, strokes, par),
            "  |  Par "@ + decimal(par[hole as int] as nat) + "  |  Strokes: "@ + decimal(0),
        ),
{
    let head = "Hole "@ + decimal(hole + 1) + " / "@ + decimal(6);
    let c = "  |  Par "@;
    let dp = decimal(entry_or_zero(par, hole as int));
    let e = "  |  Strokes: "@;
    let ds = decimal(entry_or_zero(strokes, hole as int));
    assert(score_line(hole, strokes, par) == head + c + dp + e + ds);
    lemma_starts_with_append(head, c);
    lemma_starts_with_extend(head + c, head, dp);
    lemma_starts_with_extend(head + c + dp, head, e);
    lemma_starts_with_extend(head + c + dp + e, head, ds);
    lemma_ends_with_append(head, c);
    lemma_ends_with_extend(head + c, c, dp);
    lemma_ends_with_extend(head + c + dp, c + dp, e);
    lemma_ends_with_extend(head + c + dp + e, c + dp + e, ds);
}

/// The label under the course of hole `i` names that hole and shows that same hole's
/// par, as [`crate::game::hole_par`] gives it.
pub proof fn lemma_hole_label_shows_own_par(i: nat)
    requires
        i < TOTAL_HOLES,
    ensures
        starts_with(hole_label_line(i), "Hole "@ + decimal(i + 1)),
        ends_with(hole_label_line(i), "  \u{2014}  Par "@ + decimal(par_table()[i as int] as nat)),
{
    let head = "Hole "@ + decimal(i + 1);
    let mid = "  \u{2014}  Par "@;
    let dp = decimal(par_table()[i as int] as nat);
    assert(hole_label_line(i) == head + mid + dp);
    lemma_starts_with_append(head, mid);
    lemma_starts_with_extend(head + mid, head, dp);
    lemma_ends_with_append(head, mid);
    lemma_ends_with_extend(head + mid, mid, dp);
}

/// The game-over screen ends with the total strokes and how they compare with the total
/// par, then the restart hint: "d over par" when the strokes exceed par by d, "Even par"
/// when they are equal, "d under par" when they fall short by d.
pub proof fn lemma_game_over_total_against_par(strokes: Seq<u32>, par: Seq<u32>, outcome: RunOutcome)
    requires
        total(strokes) <= i32::MAX,
        total(par) <= i32::MAX,
    ensures
        total(strokes) > total(par) ==> ends_with(
            game_over_text(strokes, par, outcome),
            "Total: "@ + decimal(total(strokes) as nat) + " strokes  \u{2014}  "@
                + (decimal((total(strokes) - total(par)) as nat) + " over par"@) + restart_hint(),
        ),
        total(strokes) == total(par) ==> ends_with(
            game_over_text(strokes, par, outcome),
            "Total: "@ + decimal(total(strokes) as nat) + " strokes  \u{2014}  "@ + "Even par"@ + restart_hint(),
        ),
        total(strokes) < total(par) ==> ends_with(
            game_over_text(strokes, par, outcome),
            "Total: "@ + decimal(total(strokes) as nat) + " strokes  \u{2014}  "@
                + (decimal((total(par) - total(strokes)) as nat) + " under par"@) + restart_hint(),
        ),
{
    lemma_total_nonnegative(strokes);
    lemma_total_nonnegative(par);
    let lead = "Total: "@ + decimal(total(strokes) as nat) + " strokes  \u{2014}  "@;
    let d = par_difference(strokes, par);
    assert(d == total(strokes) - total(par));
    let tail = lead + difference_text(d);
    let summary = run_summary(outcome, strokes, par);
    let prefix = run_title(outcome) + "\n\n"@ + scorecard(strokes, par, scorecard_rows(strokes, par)) + "\n\n"@;
    assert(game_over_text(strokes, par, outcome) == prefix + summary + restart_hint());
    match outcome {
        RunOutcome::Victory => {
            lemma_ends_with_self(tail);
        },
        RunOutcome::Death => {
            let head = "Zombies reached the ball.\nDeath penalty: +"@ + decimal(DEATH_STROKE_PENALTY as nat)
                + " strokes for each remaining hole.\n\n"@;
            assert(summary == head + tail);
            lemma_ends_with_append(head, tail);
        },
    }
    lemma_ends_with_append(prefix, summary);
    lemma_ends_with_trans(prefix + summary, summary, tail);
    lemma_ends_with_extend(prefix + summary, tail, restart_hint());
}

} // verus!
