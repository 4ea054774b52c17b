//! A best-of-N match between two contestants, and how its winner is found.

use vstd::prelude::*;
use crate::game::{Game, GameRecord};

verus! {

/// How many of `games` the first contestant won.
pub open spec fn first_wins(games: Seq<GameRecord>) -> nat
    decreases games.len(),
{
    if games.len() == 0 {
        0
    } else {
        first_wins(games.drop_last()) + if games.last().first_player_won {
            1nat
        } else {
            0nat
        }
    }
}

/// How many of `games` the second contestant won.
pub open spec fn second_wins(games: Seq<GameRecord>) -> nat
    decreases games.len(),
{
    if games.len() == 0 {
        0
    } else {
        second_wins(games.drop_last()) + if games.last().first_player_won {
            0nat
        } else {
            1nat
        }
    }
}

/// The number of wins that decides a best-of-`best_of` match.
pub open spec fn win_condition(best_of: u8) -> nat {
    (best_of as nat + 1) / 2
}

/// The result after the first `n` games: the side whose tally reaches the
/// win condition first, or `Undecided` while neither has.
pub open spec fn outcome_after(games: Seq<GameRecord>, best_of: u8, n: nat) -> Winner
    decreases n,
{
    if n == 0 {
        if win_condition(best_of) == 0 {
            Winner::FirstPlayer
        } else {
            Winner::Undecided
        }
    } else {
        let before = outcome_after(games, best_of, (n - 1) as nat);
        if before != Winner::Undecided {
            before
        } else if first_wins(games.take(n as int)) == win_condition(best_of) {
            Winner::FirstPlayer
        } else if second_wins(games.take(n as int)) == win_condition(best_of) {
            Winner::SecondPlayer
        } else {
            Winner::Undecided
        }
    }
}

/// How many of `games` count in a best-of-`best_of` match: games past the
/// first `best_of` are ignored.
pub open spec fn counted(games: Seq<GameRecord>, best_of: u8) -> nat {
    if games.len() < best_of as nat {
        games.len()
    } else {
        best_of as nat
    }
}

/// The winner of a best-of-`best_of` match that has recorded `games`.
pub open spec fn match_winner(games: Seq<GameRecord>, best_of: u8) -> Winner {
    outcome_after(games, best_of, counted(games, best_of))
}

/// One more game adds one win to the side that won it.
pub proof fn lemma_wins_step(games: Seq<GameRecord>, n: int)
    requires
        0 <= n < games.len(),
    ensures
        first_wins(games.take(n + 1)) == first_wins(games.take(n)) + if games[n].first_player_won {
            1nat
        } else {
            0nat
        },
        second_wins(games.take(n + 1)) == second_wins(games.take(n)) + if games[n].first_player_won {
            0nat
        } else {
            1nat
        },
{
    assert(games.take(n + 1).drop_last() =~= games.take(n));
}

/// Each game is won by exactly one side.
pub proof fn lemma_wins_total(games: Seq<GameRecord>)
    ensures
        first_wins(games) + second_wins(games) == games.len(),
    decreases games.len(),
{
    if games.len() > 0 {
        lemma_wins_total(games.drop_last());
    }
}

/// Once decided, the outcome no longer changes as more games are counted.
pub proof fn lemma_outcome_stable(games: Seq<GameRecord>, best_of: u8, n: nat, m: nat)
    requires
        n <= m,
        outcome_after(games, best_of, n) != Winner::Undecided,
    ensures
        outcome_after(games, best_of, m) == outcome_after(games, best_of, n),
    decreases m - n,
{
    if n < m {
        lemma_outcome_stable(games, best_of, n, (m - 1) as nat);
    }
}

/// The outcome after `n` games of a best-of-N match with N odd, in terms of
/// the tallies alone.
proof fn lemma_outcome_by_tally(games: Seq<GameRecord>, best_of: u8, n: nat)
    requires
        best_of % 2 == 1,
        n <= counted(games, best_of),
    ensures
        outcome_after(games, best_of, n) == if first_wins(games.take(n as int)) >= win_condition(
            best_of,
        ) {
            Winner::FirstPlayer
        } else if second_wins(games.take(n as int)) >= win_condition(best_of) {
            Winner::SecondPlayer
        } else {
            Winner::Undecided
        },
    decreases n,
{
    let wc = win_condition(best_of);
    if n == 0 {
        assert(games.take(0) =~= Seq::<GameRecord>::empty());
    } else {
        let m = (n - 1) as nat;
        lemma_outcome_by_tally(games, best_of, m);
        lemma_wins_step(games, m as int);
        lemma_wins_total(games.take(n as int));
    }
}

/// For an odd best-of count N, a side has won exactly when it has taken at
/// least (N + 1) / 2 of the counted games, and the match stays undecided
/// while neither side has; so once a side has won, it stays the winner.
pub proof fn lemma_majority_decides(games: Seq<GameRecord>, best_of: u8)
    requires
        best_of % 2 == 1,
    ensures
        match_winner(games, best_of) == if first_wins(
            games.take(counted(games, best_of) as int),
        ) >= win_condition(best_of) {
            Winner::FirstPlayer
        } else if second_wins(games.take(counted(games, best_of) as int)) >= win_condition(
            best_of,
        ) {
            Winner::SecondPlayer
        } else {
            Winner::Undecided
        },
{
    lemma_outcome_by_tally(games, best_of, counted(games, best_of));
}

/// Who has won a match, if anyone has yet.
#[derive(Clone, Copy, Debug, PartialEq, Eq, Structural)]
pub enum Winner {
    FirstPlayer,
    SecondPlayer,
    Undecided,
}

impl Winner {
    /// Whether the match is decided.
    pub fn exist(&self) -> (r: bool)
        ensures
            r == (*self != Winner::Undecided),
    {
        match self {
            Winner::Undecided => false,
            _ => true,
        }
    }
}

/// The games played between the two contestants of one `PlayerPair`, in
/// the order in which they were recorded.
pub struct GameMatch {
    games: Vec<Game>,
}

impl View for GameMatch {
    type V = Seq<GameRecord>;

    closed spec fn view(&self) -> Seq<GameRecord> {
        self.games@.map_values(|game: Game| game@)
    }
}

impl GameMatch {
    /// A match without games.
    pub fn new() -> (r: Self)
        ensures
            r@ == Seq::<GameRecord>::empty(),
    {
        let r = GameMatch { games: Vec::new() };
        assert(r@ =~= Seq::<GameRecord>::empty());
        r
    }

    /// The winner under best-of-`best_of` rules: the games are taken in
    /// order, at most `best_of` of them, and the first side to win
    /// `(best_of + 1) / 2` of them wins the match.
    pub fn winner(&self, best_of: u8) -> (r: Winner)
        ensures
            r == match_winner(self@, best_of),
    {
        let needed: u8 = ((best_of as u16 + 1) / 2) as u8;
        if needed == 0 {
            return Winner::FirstPlayer;
        }
        let limit: usize = if self.games.len() < best_of as usize {
            self.games.len()
        } else {
            best_of as usize
        };
        let mut a: u8 = 0;
        let mut b: u8 = 0;
        let mut i: usize = 0;
        while i < limit
            invariant
                limit == counted(self@, best_of),
                limit <= self.games.len(),
                i <= limit,
                needed as nat == win_condition(best_of),
                0 < needed <= 128,
                a as nat == first_wins(self@.take(i as int)),
                b as nat == second_wins(self@.take(i as int)),
                a < needed,
                b < needed,
                outcome_after(self@, best_of, i as nat) == Winner::Undecided,
            decreases limit - i,
        {
            proof {
                lemma_wins_step(self@, i as int);
            }
            if self.games[i].first_player_won() {
                a = a + 1;
            } else {
                b = b + 1;
            }
            i = i + 1;
            if a == needed {
                proof {
                    lemma_outcome_stable(self@, best_of, i as nat, limit as nat);
                }
                return Winner::FirstPlayer;
            }
            if b == needed {
                proof {
                    lemma_outcome_stable(self@, best_of, i as nat, limit as nat);
                }
                return Winner::SecondPlayer;
            }
        }
        Winner::Undecided
    }

    /// Records one more game, after the others.
    pub fn add_game(&mut self, game: Game)
        ensures
            final(self)@ == old(self)@.push(game@),
    {
        self.games.push(game);
        assert(self@ =~= old(self)@.push(game@));
    }
}

} // verus!
