//! A league: its roster, its matches, and who may change it.
//!
//! Contestants are referred to by their index in the roster, which never
//! changes once the league exists.

use vstd::prelude::*;
use crate::assoc::{
    has_key, keys_unique, lemma_to_map_index, lemma_to_map_key, lemma_to_map_len,
    lemma_to_map_push, lemma_to_map_update, to_map,
};
use crate::error::LeagueError;
use crate::game::{encode_payload, Game, GameRecord, GameType};
use crate::game_match::{
    counted, lemma_majority_decides, lemma_wins_total, match_winner, GameMatch, Winner,
};
use crate::keys::CollectionKeyTuple;
use crate::player_pair::{canonical, PlayerPair};

verus! {

/// The properties of a league, in their first version.
#[derive(Clone, Copy, Debug, PartialEq, Eq, Structural)]
pub struct LeagueProperties {
    /// The largest number of games a match may have.
    pub best_of: u8,
    /// The kind of game the league plays.
    pub game_type: GameType,
}

/// The properties of a league, tagged with the version of their layout, so
/// that later layouts can be added without touching stored leagues.
#[derive(Clone, Copy, Debug, PartialEq, Eq, Structural)]
pub enum UpgradeableLeagueProperties {
    V1(LeagueProperties),
}

impl UpgradeableLeagueProperties {
    /// The best-of count these properties hold.
    pub open spec fn spec_best_of(&self) -> u8 {
        match self {
            UpgradeableLeagueProperties::V1(prop) => prop.best_of,
        }
    }

    /// The game type these properties hold.
    pub open spec fn spec_game_type(&self) -> GameType {
        match self {
            UpgradeableLeagueProperties::V1(prop) => prop.game_type,
        }
    }

    /// The best-of count, whatever the version.
    pub fn get_best_of(&self) -> (r: u8)
        ensures
            r == self.spec_best_of(),
    {
        match self {
            UpgradeableLeagueProperties::V1(prop) => prop.best_of,
        }
    }

    /// The game type, whatever the version.
    pub fn get_game_type(&self) -> (r: GameType)
        ensures
            r == self.spec_game_type(),
    {
        match self {
            UpgradeableLeagueProperties::V1(prop) => prop.game_type,
        }
    }
}

/// What a league holds.
pub struct LeagueModel {
    pub best_of: u8,
    pub game_type: GameType,
    /// The contestants, in roster order.
    pub roster: Seq<Seq<char>>,
    /// The games recorded for each pair of roster indices that has any.
    pub matches: Map<(usize, usize), Seq<GameRecord>>,
    /// The accounts besides the owner that may record games.
    pub trusted: Set<Seq<char>>,
    pub owner: Seq<char>,
    /// The storage keys of the roster, trusted accounts and matches.
    pub keys: (Seq<u8>, Seq<u8>, Seq<u8>),
}

/// The views of a sequence of strings.
pub open spec fn names(strings: Seq<String>) -> Seq<Seq<char>> {
    strings.map_values(|s: String| s@)
}

/// The number of unordered pairs among `n` contestants.
pub open spec fn pair_count(n: int) -> int {
    n * (n - 1) / 2
}

/// The first roster index that holds `name`, if any does.
pub open spec fn roster_position(roster: Seq<Seq<char>>, name: Seq<char>) -> Option<int> {
    if exists|i: int| 0 <= i < roster.len() && roster[i] == name {
        Some(
            choose|i: int|
                0 <= i < roster.len() && roster[i] == name && forall|j: int|
                    0 <= j < i ==> roster[j] != name,
        )
    } else {
        None
    }
}

/// A name that occurs in the roster has a first position.
proof fn lemma_first_position(roster: Seq<Seq<char>>, name: Seq<char>, i: int) -> (k: int)
    requires
        0 <= i < roster.len(),
        roster[i] == name,
    ensures
        0 <= k <= i,
        roster[k] == name,
        forall|j: int| 0 <= j < k ==> roster[j] != name,
    decreases i,
{
    if exists|j: int| 0 <= j < i && roster[j] == name {
        let j = choose|j: int| 0 <= j < i && roster[j] == name;
        lemma_first_position(roster, name, j)
    } else {
        i
    }
}

/// What `roster_position` gives: the first position of the name, or `None`
/// where the roster lacks it.
pub proof fn lemma_roster_position(roster: Seq<Seq<char>>, name: Seq<char>)
    ensures
        match roster_position(roster, name) {
            Some(i) => {
                &&& 0 <= i < roster.len()
                &&& roster[i] == name
                &&& forall|j: int| 0 <= j < i ==> roster[j] != name
            },
            None => forall|j: int| 0 <= j < roster.len() ==> roster[j] != name,
        },
{
    if exists|i: int| 0 <= i < roster.len() && roster[i] == name {
        let i = choose|i: int| 0 <= i < roster.len() && roster[i] == name;
        let k = lemma_first_position(roster, name, i);
        assert(0 <= k < roster.len() && roster[k] == name && forall|j: int|
            0 <= j < k ==> roster[j] != name);
    }
}

/// The games recorded between the contestants of `pair`; none if the pair
/// has no match yet.
pub open spec fn games_of(m: LeagueModel, pair: (usize, usize)) -> Seq<GameRecord> {
    if m.matches.contains_key(pair) {
        m.matches[pair]
    } else {
        Seq::empty()
    }
}

/// Whether `caller` may record games in the league: its owner or one of its
/// trusted accounts.
pub open spec fn allowed(m: LeagueModel, caller: Seq<char>) -> bool {
    m.trusted.contains(caller) || caller == m.owner
}

/// A league is finished when every pair of contestants has a match, which
/// the number of matches shows, and every match is decided.
pub open spec fn finished(m: LeagueModel) -> bool {
    &&& m.matches.dom().len() == pair_count(m.roster.len() as int)
    &&& forall|pair: (usize, usize)|
        #[trigger] m.matches.contains_key(pair) ==> match_winner(m.matches[pair], m.best_of)
            != Winner::Undecided
}

/// The league after recording a game between the contestants named
/// `name0` and `name1`, whose first won when `first_in_tuple_won`, with the
/// game data `text`; or the reason why the game is refused.
pub open spec fn add_game_result(
    m: LeagueModel,
    name0: Seq<char>,
    name1: Seq<char>,
    first_in_tuple_won: bool,
    text: Seq<char>,
) -> Result<LeagueModel, LeagueError> {
    if name0 == name1 {
        Err(LeagueError::SamePlayers)
    } else {
        match (roster_position(m.roster, name0), roster_position(m.roster, name1)) {
            (Some(i), Some(j)) => {
                let pair = canonical(i as usize, j as usize);
                let games = games_of(m, pair);
                if match_winner(games, m.best_of) != Winner::Undecided {
                    Err(LeagueError::MatchFinished)
                } else {
                    match encode_payload(m.game_type, text) {
                        None => Err(LeagueError::InvalidGameData),
                        Some(payload) => {
                            let record = GameRecord {
                                first_player_won: (pair.0 != i as usize) != first_in_tuple_won,
                                payload,
                            };
                            Ok(LeagueModel { matches: m.matches.insert(pair, games.push(record)), ..m })
                        },
                    }
                }
            },
            _ => Err(LeagueError::PlayerNotFound),
        }
    }
}

/// A league whose matches recorded fewer pairs than there are pairs of
/// contestants, or which has an undecided match, is not finished.
pub proof fn lemma_unfinished(m: LeagueModel)
    requires
        m.matches.dom().len() < pair_count(m.roster.len() as int) || exists|pair: (usize, usize)|
            #[trigger] m.matches.contains_key(pair) && match_winner(m.matches[pair], m.best_of)
                == Winner::Undecided,
    ensures
        !finished(m),
{
}

/// The pairs of distinct roster indices below `n`, the smaller one first.
pub open spec fn all_pairs(n: nat) -> Set<(usize, usize)> {
    Set::new(|pair: (usize, usize)| pair.0 < pair.1 < n)
}

/// The pairs whose larger index is `n`.
spec fn pairs_ending_at(n: nat) -> Set<(usize, usize)> {
    Set::new(|pair: (usize, usize)| pair.0 < n && pair.1 == n)
}

proof fn lemma_pairs_ending_at_len(n: nat)
    requires
        n <= usize::MAX,
    ensures
        pairs_ending_at(n).finite(),
        pairs_ending_at(n).len() == n,
{
    let s = Seq::new(n, |a: int| (a as usize, n as usize));
    assert forall|pair: (usize, usize)| #[trigger] pairs_ending_at(n).contains(pair) == s.contains(pair) by {
        if pairs_ending_at(n).contains(pair) {
            assert(s[pair.0 as int] == pair);
        }
    }
    assert(pairs_ending_at(n) =~= s.to_set());
    s.unique_seq_to_set();
}

/// There are n(n-1)/2 pairs of distinct roster indices below `n`.
pub proof fn lemma_all_pairs_len(n: nat)
    requires
        n <= usize::MAX,
    ensures
        all_pairs(n).finite(),
        all_pairs(n).len() == pair_count(n as int),
    decreases n,
{
    if n == 0 {
        assert(all_pairs(0) =~= Set::empty());
    } else {
        let m = (n - 1) as nat;
        lemma_all_pairs_len(m);
        lemma_pairs_ending_at_len(m);
        assert(all_pairs(n) =~= all_pairs(m) + pairs_ending_at(m));
        assert(all_pairs(m).disjoint(pairs_ending_at(m)));
        vstd::set_lib::lemma_set_disjoint_lens(all_pairs(m), pairs_ending_at(m));
        assert(n * m == m * (m - 1) + 2 * m) by (nonlinear_arith)
            requires
                n == m + 1,
        ;
    }
}

/// In a league that keeps its invariant, counting the matches tells whether
/// every pair of contestants has one: the league is finished exactly when
/// every two distinct contestants have a match and every match is decided.
pub proof fn lemma_finished_means_all_pairs_decided(league: &League)
    requires
        league.wf(),
    ensures
        finished(league@) <==> forall|pair: (usize, usize)| #[trigger]
            all_pairs(league@.roster.len()).contains(pair) ==> {
                &&& league@.matches.contains_key(pair)
                &&& match_winner(league@.matches[pair], league@.best_of) != Winner::Undecided
            },
{
    let m = league@;
    let pairs = all_pairs(m.roster.len());
    lemma_all_pairs_len(m.roster.len());
    lemma_to_map_len(league.match_entries());
    assert(m.matches.dom().subset_of(pairs));
    if m.matches.dom().len() == pair_count(m.roster.len() as int) {
        vstd::set_lib::lemma_subset_equality(m.matches.dom(), pairs);
    }
    if forall|pair: (usize, usize)| #[trigger] pairs.contains(pair) ==> m.matches.contains_key(pair) {
        assert(m.matches.dom() =~= pairs);
    }
}

/// A round-robin league of one-versus-one matches.
pub struct League {
    properties: UpgradeableLeagueProperties,
    players: Vec<String>,
    game_matches: Vec<(PlayerPair, GameMatch)>,
    trusted_account_ids: Vec<String>,
    owner: String,
    keys: CollectionKeyTuple,
}

impl View for League {
    type V = LeagueModel;

    closed spec fn view(&self) -> LeagueModel {
        LeagueModel {
            best_of: self.properties.spec_best_of(),
            game_type: self.properties.spec_game_type(),
            roster: names(self.players@),
            matches: to_map(self.match_entries()),
            trusted: names(self.trusted_account_ids@).to_set(),
            owner: self.owner@,
            keys: self.keys@,
        }
    }
}

impl League {
    /// The matches as a sequence of entries, in the order they were created.
    closed spec fn match_entries(&self) -> Seq<((usize, usize), Seq<GameRecord>)> {
        self.game_matches@.map_values(|e: (PlayerPair, GameMatch)| (e.0@, e.1@))
    }

    /// The league's invariant: a roster of at least 3 contestants, an odd
    /// best-of count, and a match only for pairs of two distinct
    /// contestants, holding between one and best-of games.
    pub closed spec fn wf(&self) -> bool {
        let m = self@;
        &&& 3 <= m.roster.len() <= usize::MAX
        &&& m.best_of % 2 == 1
        &&& keys_unique(self.match_entries())
        &&& forall|pair: (usize, usize)| #[trigger]
            m.matches.contains_key(pair) ==> {
                &&& pair.0 < pair.1 < m.roster.len()
                &&& 0 < m.matches[pair].len() <= m.best_of
            }
    }

    /// What the invariant promises of a league's contents.
    pub proof fn lemma_wf_facts(&self)
        requires
            self.wf(),
        ensures
            self@.roster.len() >= 3,
            self@.best_of % 2 == 1,
            self@.matches.dom().finite(),
            self@.matches.dom().subset_of(all_pairs(self@.roster.len())),
            forall|pair: (usize, usize)| #[trigger]
                self@.matches.contains_key(pair) ==> 0 < self@.matches[pair].len()
                    <= self@.best_of,
    {
        lemma_to_map_len(self.match_entries());
    }

    /// A league without games, owned by `owner`. The trusted accounts are
    /// `trusted_account_ids` without the owner, who needs no such entry.
    pub fn new(
        keys: CollectionKeyTuple,
        properties: UpgradeableLeagueProperties,
        players: Vec<String>,
        trusted_account_ids: Vec<String>,
        owner: String,
    ) -> (r: Self)
        requires
            3 <= players.len(),
            properties.spec_best_of() % 2 == 1,
        ensures
            r.wf(),
            r@ == (LeagueModel {
                best_of: properties.spec_best_of(),
                game_type: properties.spec_game_type(),
                roster: names(players@),
                matches: Map::empty(),
                trusted: names(trusted_account_ids@).to_set().remove(owner@),
                owner: owner@,
                keys: keys@,
            }),
    {
        let ghost given = names(trusted_account_ids@);
        let mut trusted: Vec<String> = Vec::new();
        let mut i: usize = 0;
        while i < trusted_account_ids.len()
            invariant
                i <= trusted_account_ids.len(),
                given == names(trusted_account_ids@),
                forall|a: Seq<char>|
                    #[trigger] names(trusted@).contains(a) <==> (a != owner@
                        && exists|j: int| 0 <= j < i && given[j] == a),
            decreases trusted_account_ids.len() - i,
        {
            let ghost before = names(trusted@);
            if trusted_account_ids[i] != owner {
                trusted.push(trusted_account_ids[i].clone());
                assert(names(trusted@) =~= before.push(given[i as int]));
            } else {
                assert(names(trusted@) =~= before);
            }
            proof {
                let now = names(trusted@);
                let added = given[i as int];
                assert(added != owner@ ==> now == before.push(added));
                assert(added == owner@ ==> now == before);
                assert forall|a: Seq<char>| #[trigger]
                    now.contains(a) <==> (a != owner@ && exists|j: int|
                        0 <= j < i + 1 && given[j] == a) by {
                    if now.contains(a) {
                        let k = choose|k: int| 0 <= k < now.len() && now[k] == a;
                        if k < before.len() {
                            assert(before[k] == a);
                            assert(before.contains(a));
                            let j = choose|j: int| 0 <= j < i && given[j] == a;
                            assert(0 <= j < i + 1 && given[j] == a);
                        } else {
                            assert(a == added && added != owner@);
                            assert(0 <= i < i + 1 && given[i as int] == a);
                        }
                    }
                    if a != owner@ && exists|j: int| 0 <= j < i + 1 && given[j] == a {
                        let j = choose|j: int| 0 <= j < i + 1 && given[j] == a;
                        if j < i {
                            assert(0 <= j < i && given[j] == a);
                            assert(before.contains(a));
                            let k = choose|k: int| 0 <= k < before.len() && before[k] == a;
                            assert(now[k] == a);
                        } else {
                            assert(now[now.len() - 1] == a);
                        }
                    }
                }
            }
            i = i + 1;
        }
        let r = League {
            properties,
            players,
            game_matches: Vec::new(),
            trusted_account_ids: trusted,
            owner,
            keys,
        };
        proof {
            assert(r.match_entries() =~= Seq::empty());
            assert(to_map(r.match_entries()) =~= Map::empty());
            assert(r@.trusted =~= given.to_set().remove(owner@));
        }
        r
    }

    /// Whether `caller` may record games: the owner or a trusted account.
    pub fn caller_is_allowed(&self, caller: &String) -> (r: bool)
        ensures
            r == allowed(self@, caller@),
    {
        let mut i: usize = 0;
        while i < self.trusted_account_ids.len()
            invariant
                i <= self.trusted_account_ids.len(),
                forall|j: int| 0 <= j < i ==> self.trusted_account_ids@[j]@ != caller@,
            decreases self.trusted_account_ids.len() - i,
        {
            if self.trusted_account_ids[i] == *caller {
                assert(names(self.trusted_account_ids@)[i as int] == caller@);
                return true;
            }
            i = i + 1;
        }
        self.caller_is_owner(caller)
    }

    /// Whether `caller` owns the league.
    pub fn caller_is_owner(&self, caller: &String) -> (r: bool)
        ensures
            r == (caller@ == self@.owner),
    {
        *caller == self.owner
    }

    /// The storage keys derived for the league.
    pub fn storage_keys(&self) -> (r: &CollectionKeyTuple)
        ensures
            r@ == self@.keys,
    {
        &self.keys
    }

    /// Whether every pair of contestants has a match and every match is
    /// decided.
    pub fn is_finished(&self) -> (r: bool)
        requires
            self.wf(),
        ensures
            r == finished(self@),
    {
        let p = self.players.len() as u128;
        proof {
            assert(p <= u64::MAX);
            assert(p * (p - 1) <= u64::MAX * u64::MAX) by (nonlinear_arith)
                requires
                    3 <= p <= u64::MAX,
            ;
            lemma_to_map_len(self.match_entries());
        }
        if self.game_matches.len() as u128 != p * (p - 1) / 2 {
            return false;
        }
        let best_of = self.properties.get_best_of();
        let mut i: usize = 0;
        while i < self.game_matches.len()
            invariant
                self.wf(),
                best_of == self@.best_of,
                i <= self.game_matches.len(),
                forall|j: int|
                    0 <= j < i ==> match_winner(#[trigger] self.game_matches@[j].1@, best_of)
                        != Winner::Undecided,
            decreases self.game_matches.len() - i,
        {
            if !self.game_matches[i].1.winner(best_of).exist() {
                proof {
                    lemma_to_map_index(self.match_entries(), i as int);
                }
                return false;
            }
            i = i + 1;
        }
        proof {
            assert forall|pair: (usize, usize)| #[trigger]
                self@.matches.contains_key(pair) implies match_winner(
                self@.matches[pair],
                best_of,
            ) != Winner::Undecided by {
                let j = lemma_to_map_key(self.match_entries(), pair);
                assert(self.game_matches@[j].1@ == self.match_entries()[j].1);
            }
        }
        true
    }

    /// The first roster index holding `name`, if any does.
    fn find_player(&self, name: &String) -> (r: Option<usize>)
        requires
            self.wf(),
        ensures
            r == match roster_position(self@.roster, name@) {
                Some(i) => Some(i as usize),
                None => None::<usize>,
            },
    {
        let ghost roster = self@.roster;
        let mut i: usize = 0;
        while i < self.players.len()
            invariant
                self.wf(),
                roster == self@.roster,
                i <= self.players.len(),
                forall|j: int| 0 <= j < i ==> roster[j] != name@,
            decreases self.players.len() - i,
        {
            if self.players[i] == *name {
                proof {
                    assert(roster[i as int] == name@);
                    let k = choose|k: int|
                        0 <= k < roster.len() && roster[k] == name@ && forall|j: int|
                            0 <= j < k ==> roster[j] != name@;
                    if k < i {
                        assert(roster[k] != name@);
                    }
                    if k > i {
                        assert(roster[i as int] != name@);
                    }
                }
                return Some(i);
            }
            i = i + 1;
        }
        None
    }

    /// The position of the match of `pair` among the matches, if it has one.
    fn find_match(&self, pair: &PlayerPair) -> (r: Option<usize>)
        ensures
            match r {
                Some(i) => i < self.game_matches.len() && self.match_entries()[i as int].0
                    == pair@,
                None => !has_key(self.match_entries(), pair@),
            },
    {
        let mut i: usize = 0;
        while i < self.game_matches.len()
            invariant
                i <= self.game_matches.len(),
                forall|j: int| 0 <= j < i ==> self.match_entries()[j].0 != pair@,
            decreases self.game_matches.len() - i,
        {
            proof {
                self.game_matches@[i as int].0.lemma_eq_view(*pair);
            }
            if self.game_matches[i].0 == *pair {
                return Some(i);
            }
            i = i + 1;
        }
        None
    }

    /// The match between the contestants of `pair`, if it has one.
    pub fn get_match(&self, pair: &PlayerPair) -> (r: Option<&GameMatch>)
        requires
            self.wf(),
        ensures
            match r {
                Some(game_match) => self@.matches.contains_key(pair@) && game_match@
                    == self@.matches[pair@],
                None => !self@.matches.contains_key(pair@),
            },
    {
        match self.find_match(pair) {
            Some(i) => {
                proof {
                    lemma_to_map_index(self.match_entries(), i as int);
                }
                Some(&self.game_matches[i].1)
            },
            None => None,
        }
    }
    /// Records a game between the contestants named in `player_names`.
    ///
    /// `first_in_tuple_won` says whether the first named contestant won; it
    /// is turned to the pair's canonical order before it is stored. The game
    /// data `game_data` must fit the league's game type. Checking that the
    /// caller may record games is left to the caller.
    #[verifier::rlimit(80)]
    pub fn add_game(
        &mut self,
        player_names: &(String, String),
        first_in_tuple_won: bool,
        game_data: &String,
    ) -> (r: Result<(), LeagueError>)
        requires
            old(self).wf(),
        ensures
            final(self).wf(),
            match add_game_result(
                old(self)@,
                player_names.0@,
                player_names.1@,
                first_in_tuple_won,
                game_data@,
            ) {
                Ok(m) => r is Ok && final(self)@ == m,
                Err(e) => r == Err::<(), LeagueError>(e) && final(self)@ == old(self)@,
            },
    {
        if player_names.0 == player_names.1 {
            return Err(LeagueError::SamePlayers);
        }
        let first = self.find_player(&player_names.0);
        let second = self.find_player(&player_names.1);
        let (first, second) = match (first, second) {
            (Some(first), Some(second)) => (first, second),
            _ => {
                return Err(LeagueError::PlayerNotFound);
            },
        };
        let ghost m = self@;
        proof {
            // Distinct names sit at distinct roster positions.
            lemma_roster_position(m.roster, player_names.0@);
            lemma_roster_position(m.roster, player_names.1@);
            let i = roster_position(m.roster, player_names.0@)->0;
            let j = roster_position(m.roster, player_names.1@)->0;
            assert(m.roster[i] == player_names.0@);
            assert(m.roster[j] == player_names.1@);
            assert(i != j);
        }
        let pair = PlayerPair::new(first, second);
        let best_of = self.properties.get_best_of();
        let index = self.find_match(&pair);
        let ghost games = games_of(m, pair@);
        match index {
            Some(i) => {
                proof {
                    lemma_to_map_index(self.match_entries(), i as int);
                }
                if self.game_matches[i].1.winner(best_of).exist() {
                    return Err(LeagueError::MatchFinished);
                }
            },
            None => {
                proof {
                    assert(games == Seq::<GameRecord>::empty());
                    assert(games.take(0) =~= games);
                }
            },
        }
        proof {
            // An undecided match has room for one more game.
            lemma_majority_decides(games, best_of);
            lemma_wins_total(games);
            if games.len() >= best_of {
                assert(games.take(counted(games, best_of) as int) =~= games);
            }
        }
        let first_has_won = pair.is_swapped(first) != first_in_tuple_won;
        let game = match Game::new_with_data(
            first_has_won,
            self.properties.get_game_type(),
            game_data,
        ) {
            Some(game) => game,
            None => {
                return Err(LeagueError::InvalidGameData);
            },
        };
        let ghost record = game@;
        let ghost entries = self.match_entries();
        match index {
            Some(i) => {
                let (key, mut game_match) = self.game_matches.remove(i);
                game_match.add_game(game);
                self.game_matches.insert(i, (key, game_match));
                proof {
                    assert(self.match_entries() =~= entries.update(
                        i as int,
                        (entries[i as int].0, games.push(record)),
                    ));
                    lemma_to_map_update(entries, i as int, games.push(record));
                }
            },
            None => {
                let mut game_match = GameMatch::new();
                game_match.add_game(game);
                self.game_matches.push((pair, game_match));
                proof {
                    assert(self.match_entries() =~= entries.push((pair@, games.push(record))));
                    lemma_to_map_push(entries, pair@, games.push(record));
                }
            },
        }
        proof {
            assert(self@.matches =~= m.matches.insert(pair@, games.push(record)));
            assert(self@ == LeagueModel { matches: m.matches.insert(pair@, games.push(record)), ..m });
        }
        Ok(())
    }
}

} // verus!
