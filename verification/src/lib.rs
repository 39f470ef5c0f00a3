//! Rules, scoring and text of a six-hole mini golf game in which zombies
//! chase the ball, stated as verified functions over plain values.

pub mod combat;
pub mod game;
pub mod input;
pub mod messages;
pub mod state;
pub mod text;
