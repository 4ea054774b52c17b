//! Why a league operation was refused.

use vstd::prelude::*;

verus! {

/// The condition that made a league operation fail. A failed operation
/// leaves every league as it was.
#[derive(Clone, Copy, Debug, PartialEq, Eq, Structural)]
pub enum LeagueError {
    /// The best-of count of a new league is even.
    EvenBestOf,
    /// The roster of a new league has fewer than three contestants.
    TooFewPlayers,
    /// The name of a new league is shorter than three bytes.
    NameTooShort,
    /// A league of that name exists already.
    LeagueExists,
    /// No league has that name.
    LeagueNotFound,
    /// The caller is neither the league's owner nor one of its trusted
    /// accounts.
    NotAllowed,
    /// The caller is not the league's owner.
    NotOwner,
    /// The league is not finished, and its deletion was not forced.
    NotFinished,
    /// Both contestants of a game were given the same name.
    SamePlayers,
    /// A contestant of a game is not on the league's roster.
    PlayerNotFound,
    /// The match between the two contestants is decided already.
    MatchFinished,
    /// The game data does not fit the league's game type.
    InvalidGameData,
}

} // verus!
