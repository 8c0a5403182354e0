//! The values exchanged with the player that carry no floating-point data.

use vstd::prelude::*;

verus! {

/// A target was shot; `score` is the player's score after the hit.
#[derive(Clone, Copy, Debug, PartialEq, Eq, Structural)]
pub struct HitEvent {
    pub target_id: u32,
    pub score: u32,
}

/// Tells the player that the game has ended and with what score.
#[derive(Clone, Debug)]
pub struct GameOverMessage {
    pub reason: String,
    pub score: u32,
}

/// What a client message asks of the session, with the floating-point part of
/// an input (movement, aim, frame time) left to the caller.
#[derive(Clone, Copy, Debug, PartialEq, Eq, Structural)]
pub enum ClientCommand {
    Join,
    Input { sequence: u64 },
    Reset,
}

/// The reason given when the player falls out of the arena.
pub open spec fn fell_out_reason() -> Seq<char> {
    "fell out of bounds"@
}

/// The reason text of a game over caused by a fall.
pub fn fell_out_of_bounds_reason() -> (s: String)
    ensures
        s@ == fell_out_reason(),
{
    "fell out of bounds".to_owned()
}

/// The message of a connection refused because a player is already active.
pub open spec fn server_full_text() -> Seq<char> {
    "Only one active player is supported in v1."@
}

/// The text sent to a client that connects while another player is active.
pub fn server_full_message() -> (s: String)
    ensures
        s@ == server_full_text(),
{
    "Only one active player is supported in v1.".to_owned()
}

} // verus!
