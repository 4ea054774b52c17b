//! The registry of leagues, each under a unique name.
//!
//! Every operation takes the identity of the account that asks for it; the
//! registry checks what that account may do.

use vstd::prelude::*;
use vstd::utf8::encode_utf8;
use crate::assoc::{
    has_key, keys_unique, lemma_to_map_index, lemma_to_map_push, lemma_to_map_remove,
    lemma_to_map_update, to_map,
};
use crate::error::LeagueError;
use crate::game::GameType;
use crate::keys::{derived_key, CollectionKeyTuple};
use crate::league::{
    add_game_result, allowed, finished, names, League, LeagueModel, LeagueProperties,
    UpgradeableLeagueProperties,
};

verus! {

/// The names of all game types, one for each.
pub open spec fn game_type_names() -> Seq<Seq<char>> {
    seq!["StandardGameType"@]
}

/// The leagues after creating one named `name`, or why it is refused.
pub open spec fn create_league_result(
    leagues: Map<Seq<char>, LeagueModel>,
    name: Seq<char>,
    players: Seq<Seq<char>>,
    accounts: Seq<Seq<char>>,
    best_of: u8,
    game_type: GameType,
    caller: Seq<char>,
) -> Result<Map<Seq<char>, LeagueModel>, LeagueError> {
    if best_of % 2 == 0 {
        Err(LeagueError::EvenBestOf)
    } else if players.len() <= 2 {
        Err(LeagueError::TooFewPlayers)
    } else if encode_utf8(name).len() <= 2 {
        Err(LeagueError::NameTooShort)
    } else if leagues.contains_key(name) {
        Err(LeagueError::LeagueExists)
    } else {
        Ok(
            leagues.insert(
                name,
                LeagueModel {
                    best_of,
                    game_type,
                    roster: players,
                    matches: Map::empty(),
                    trusted: accounts.to_set().remove(caller),
                    owner: caller,
                    keys: (
                        derived_key(encode_utf8(name), 0),
                        derived_key(encode_utf8(name), 1),
                        derived_key(encode_utf8(name), 2),
                    ),
                },
            ),
        )
    }
}

/// The leagues after deleting the one named `name`, or why it is refused.
pub open spec fn delete_league_result(
    leagues: Map<Seq<char>, LeagueModel>,
    name: Seq<char>,
    force: bool,
    caller: Seq<char>,
) -> Result<Map<Seq<char>, LeagueModel>, LeagueError> {
    if !leagues.contains_key(name) {
        Err(LeagueError::LeagueNotFound)
    } else if caller != leagues[name].owner {
        Err(LeagueError::NotOwner)
    } else if !(finished(leagues[name]) || force) {
        Err(LeagueError::NotFinished)
    } else {
        Ok(leagues.remove(name))
    }
}

/// The leagues after recording a game in the one named `name`, or why it
/// is refused.
pub open spec fn league_add_game_result(
    leagues: Map<Seq<char>, LeagueModel>,
    name: Seq<char>,
    name0: Seq<char>,
    name1: Seq<char>,
    first_in_tuple_won: bool,
    text: Seq<char>,
    caller: Seq<char>,
) -> Result<Map<Seq<char>, LeagueModel>, LeagueError> {
    if name0 == name1 {
        Err(LeagueError::SamePlayers)
    } else if !leagues.contains_key(name) {
        Err(LeagueError::LeagueNotFound)
    } else if !allowed(leagues[name], caller) {
        Err(LeagueError::NotAllowed)
    } else {
        match add_game_result(leagues[name], name0, name1, first_in_tuple_won, text) {
            Ok(m) => Ok(leagues.insert(name, m)),
            Err(e) => Err(e),
        }
    }
}

/// All leagues, by name.
pub struct LeagueContract {
    leagues: Vec<(String, League)>,
}

impl View for LeagueContract {
    type V = Map<Seq<char>, LeagueModel>;

    closed spec fn view(&self) -> Map<Seq<char>, LeagueModel> {
        to_map(self.entries())
    }
}

impl LeagueContract {
    closed spec fn entries(&self) -> Seq<(Seq<char>, LeagueModel)> {
        self.leagues@.map_values(|e: (String, League)| (e.0@, e.1@))
    }

    /// Names are unique and every league keeps its invariant.
    pub closed spec fn wf(&self) -> bool {
        &&& keys_unique(self.entries())
        &&& forall|i: int| 0 <= i < self.leagues.len() ==> #[trigger] self.leagues@[i].1.wf()
    }

    /// A registry without leagues.
    pub fn new() -> (r: Self)
        ensures
            r.wf(),
            r@ == Map::<Seq<char>, LeagueModel>::empty(),
    {
        let r = LeagueContract { leagues: Vec::new() };
        assert(r.entries() =~= Seq::empty());
        assert(r@ =~= Map::<Seq<char>, LeagueModel>::empty());
        r
    }

    /// The position of the league named `name`, if there is one.
    fn find_league(&self, name: &String) -> (r: Option<usize>)
        ensures
            match r {
                Some(i) => i < self.leagues.len() && self.entries()[i as int].0 == name@,
                None => !has_key(self.entries(), name@),
            },
    {
        let mut i: usize = 0;
        while i < self.leagues.len()
            invariant
                i <= self.leagues.len(),
                forall|j: int| 0 <= j < i ==> self.entries()[j].0 != name@,
            decreases self.leagues.len() - i,
        {
            if self.leagues[i].0 == *name {
                return Some(i);
            }
            i = i + 1;
        }
        None
    }

    /// The league named `league_name`, if there is one.
    pub fn get_league(&self, league_name: &String) -> (r: Option<&League>)
        requires
            self.wf(),
        ensures
            match r {
                Some(league) => {
                    &&& self@.contains_key(league_name@)
                    &&& league@ == self@[league_name@]
                    &&& league.wf()
                },
                None => !self@.contains_key(league_name@),
            },
    {
        match self.find_league(league_name) {
            Some(i) => {
                proof {
                    lemma_to_map_index(self.entries(), i as int);
                }
                Some(&self.leagues[i].1)
            },
            None => None,
        }
    }

    /// Creates a league named `league_name`, owned by `caller`.
    ///
    /// The best-of count must be odd, the roster must hold at least three
    /// contestants, and the name at least three bytes; no league may have
    /// that name yet. The trusted accounts are `accounts` without the caller.
    pub fn create_league(
        &mut self,
        league_name: String,
        players: Vec<String>,
        accounts: Vec<String>,
        best_of: u8,
        game_type: GameType,
        caller: String,
    ) -> (r: Result<(), LeagueError>)
        requires
            old(self).wf(),
        ensures
            final(self).wf(),
            match create_league_result(
                old(self)@,
                league_name@,
                names(players@),
                names(accounts@),
                best_of,
                game_type,
                caller@,
            ) {
                Ok(leagues) => r is Ok && final(self)@ == leagues,
                Err(e) => r == Err::<(), LeagueError>(e) && final(self)@ == old(self)@,
            },
    {
        if best_of % 2 != 1 {
            return Err(LeagueError::EvenBestOf);
        }
        if players.len() <= 2 {
            return Err(LeagueError::TooFewPlayers);
        }
        if league_name.as_str().as_bytes().len() <= 2 {
            return Err(LeagueError::NameTooShort);
        }
        let found = self.find_league(&league_name);
        if found.is_some() {
            proof {
                lemma_to_map_index(self.entries(), found->0 as int);
            }
            return Err(LeagueError::LeagueExists);
        }
        let keys = CollectionKeyTuple::new(league_name.as_str());
        let properties = UpgradeableLeagueProperties::V1(LeagueProperties { best_of, game_type });
        let league = League::new(keys, properties, players, accounts, caller);
        let ghost entries = self.entries();
        let ghost name = league_name@;
        let ghost model = league@;
        self.leagues.push((league_name, league));
        proof {
            assert(self.entries() =~= entries.push((name, model)));
            lemma_to_map_push(entries, name, model);
            assert forall|i: int| 0 <= i < self.leagues.len() implies #[trigger] self.leagues@[
                i
            ].1.wf() by {
                if i < self.leagues.len() - 1 {
                    assert(self.leagues@[i] == old(self).leagues@[i]);
                }
            }
        }
        Ok(())
    }

    /// Deletes the league named `league_name`.
    ///
    /// Only its owner may delete it, and only once it is finished, unless
    /// `force` is set.
    pub fn delete_league(&mut self, league_name: String, force: bool, caller: String) -> (r:
        Result<(), LeagueError>)
        requires
            old(self).wf(),
        ensures
            final(self).wf(),
            match delete_league_result(old(self)@, league_name@, force, caller@) {
                Ok(leagues) => r is Ok && final(self)@ == leagues,
                Err(e) => r == Err::<(), LeagueError>(e) && final(self)@ == old(self)@,
            },
    {
        let i = match self.find_league(&league_name) {
            Some(i) => i,
            None => {
                return Err(LeagueError::LeagueNotFound);
            },
        };
        proof {
            lemma_to_map_index(self.entries(), i as int);
        }
        if !self.leagues[i].1.caller_is_owner(&caller) {
            return Err(LeagueError::NotOwner);
        }
        if !(self.leagues[i].1.is_finished() || force) {
            return Err(LeagueError::NotFinished);
        }
        let ghost entries = self.entries();
        self.leagues.remove(i);
        proof {
            assert(self.entries() =~= entries.remove(i as int));
            lemma_to_map_remove(entries, i as int);
            assert forall|j: int| 0 <= j < self.leagues.len() implies #[trigger] self.leagues@[
                j
            ].1.wf() by {
                if j < i {
                    assert(self.leagues@[j] == old(self).leagues@[j]);
                } else {
                    assert(self.leagues@[j] == old(self).leagues@[j + 1]);
                }
            }
        }
        Ok(())
    }

    /// Records a game in the league named `league_name`, on behalf of
    /// `caller`, who must be its owner or one of its trusted accounts. See
    /// `League::add_game` for the game itself.
    #[verifier::rlimit(50)]
    pub fn add_game(
        &mut self,
        league_name: String,
        player_names: (String, String),
        first_in_tuple_won: bool,
        game_data: String,
        caller: String,
    ) -> (r: Result<(), LeagueError>)
        requires
            old(self).wf(),
        ensures
            final(self).wf(),
            match league_add_game_result(
                old(self)@,
                league_name@,
                player_names.0@,
                player_names.1@,
                first_in_tuple_won,
                game_data@,
                caller@,
            ) {
                Ok(leagues) => r is Ok && final(self)@ == leagues,
                Err(e) => r == Err::<(), LeagueError>(e) && final(self)@ == old(self)@,
            },
    {
        if player_names.0 == player_names.1 {
            return Err(LeagueError::SamePlayers);
        }
        let i = match self.find_league(&league_name) {
            Some(i) => i,
            None => {
                return Err(LeagueError::LeagueNotFound);
            },
        };
        proof {
            lemma_to_map_index(self.entries(), i as int);
        }
        if !self.leagues[i].1.caller_is_allowed(&caller) {
            return Err(LeagueError::NotAllowed);
        }
        let ghost entries = self.entries();
        let (name, mut league) = self.leagues.remove(i);
        let r = league.add_game(&player_names, first_in_tuple_won, &game_data);
        let ghost model = league@;
        self.leagues.insert(i, (name, league));
        proof {
            assert(self.entries() =~= entries.update(i as int, (entries[i as int].0, model)));
            lemma_to_map_update(entries, i as int, model);
            if r is Err {
                assert(model == entries[i as int].1);
                assert(to_map(entries).insert(entries[i as int].0, model) =~= to_map(entries));
            }
            assert forall|j: int| 0 <= j < self.leagues.len() implies #[trigger] self.leagues@[
                j
            ].1.wf() by {
                if j != i {
                    assert(self.leagues@[j] == old(self).leagues@[j]);
                }
            }
        }
        r
    }

    /// The names of the game types a league can be created with.
    pub fn get_game_types(&self) -> (r: Vec<&'static str>)
        ensures
            r@.map_values(|name: &'static str| name@) == game_type_names(),
    {
        let r = vec!["StandardGameType"];
        assert(r@.map_values(|name: &'static str| name@) =~= game_type_names());
        r
    }
}

} // verus!
