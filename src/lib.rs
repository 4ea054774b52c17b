//! Round-robin leagues of one-versus-one matches.
//!
//! A league holds a fixed roster of contestants, a best-of-N match between
//! every two of them, and the accounts that may record games. Each recorded
//! game carries a payload whose shape is fixed by the league's game type.

pub mod assoc;
pub mod codec;
pub mod contract;
pub mod error;
pub mod game;
pub mod game_match;
pub mod keys;
pub mod league;
pub mod player_pair;

pub use player_pair::PlayerPair;
