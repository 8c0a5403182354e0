//! Verified core of a single-player arena shooter server: the tick
//! schedule, the scoring and game-over rules of the arena, and the session
//! state machine that decides what the server answers and sends.

pub mod protocol;
pub mod session;
pub mod sim;
pub mod world;
