# bevy_golf

A six-hole mini golf game in which zombies chase the ball. The library in `src/`
holds the game's rules, scoring and texts as Verus-verified functions; `app/` is the
Bevy program around it (rendering, audio, input reading and the floating-point
ball, projectile and zombie physics).

- `src/state.rs`: game phases, action modes, run outcomes, queued state changes.
- `src/game.rs`: the scorecard, pars, stroke counting, the death penalty, hole
  progression, zombie contact, run reset, and laws about them.
- `src/input.rs`: keyboard shortcuts over Bevy's `ButtonInput`, on-screen mode buttons,
  music start.
- `src/combat.rs`: which projectiles are spent and which zombies die in a frame.
- `src/text.rs`, `src/messages.rs`: decimal numerals, the HUD line, hole labels, the
  hole-complete overlay and the game-over screen, with the law that every game-over
  screen ends with the restart hint.
