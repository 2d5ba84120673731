//! Round and game progression engine for a multi-round elimination betting
//! quiz: players, the per-round betting phases and pot, winner determination,
//! and the cross-round elimination and termination rules.

mod clock;
pub mod commands;
pub mod display;
pub mod error;
pub mod player;
pub mod ranking;
pub mod round;
pub mod state;
mod text;
pub mod updater;

pub use commands::start_new_game;
pub use display::{DisplayConfig, DisplayStep};
pub use error::GameError;
pub use player::{Answer, Player};
pub use round::{BettingPhase, Round, RoundResult};
pub use state::GameState;
pub use updater::{is_newer_version, update_info, GitHubRelease, UpdateInfo};
