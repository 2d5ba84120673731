use vstd::prelude::*;

verus! {

/// The ways an engine operation can fail. Every failure leaves the engine
/// usable; callers get one of these instead of a new state.
#[derive(Debug, Clone, Copy, PartialEq, Eq, Structural)]
pub enum GameError {
    /// No game has been started.
    NoActiveGame,
    /// The game has no round in progress.
    NoActiveRound,
    /// No player carries the given id.
    PlayerNotFound,
    /// A bet exceeds the player's balance.
    InsufficientFunds,
    /// A betting action outside the allowed per-action bounds.
    InvalidBetAmount,
    /// Writing cannot be enabled while video mode is on.
    OperationNotPermitted,
    /// The game is over.
    GameFinished,
    /// All rounds of the game have been played.
    RoundLimitReached,
    /// No player is eligible to win the round.
    WinnerNotDeterminable,
}

} // verus!
