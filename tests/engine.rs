use game_league::codec::StandardGameData;
use game_league::contract::LeagueContract;
use game_league::error::LeagueError;
use game_league::game::{Game, GameType};
use game_league::game_match::{GameMatch, Winner};
use game_league::keys::CollectionKeyTuple;
use game_league::league::{LeagueProperties, UpgradeableLeagueProperties};
use game_league::PlayerPair;

fn roster() -> Vec<String> {
    vec!["Alice".to_string(), "Bob".to_string(), "Charly".to_string()]
}

fn game(first_won: bool) -> Game {
    Game::new_with_data(first_won, GameType::StandardGameType, &"{}".to_string()).unwrap()
}

fn played(outcomes: &[bool]) -> GameMatch {
    let mut m = GameMatch::new();
    for &won in outcomes {
        m.add_game(game(won));
    }
    m
}

fn league_with(best_of: u8, trusted: Vec<String>) -> (LeagueContract, String) {
    let mut contract = LeagueContract::new();
    let name = "SomeLeague".to_string();
    let r = contract.create_league(
        name.clone(),
        roster(),
        trusted,
        best_of,
        GameType::StandardGameType,
        "owner".to_string(),
    );
    assert_eq!(r, Ok(()));
    (contract, name)
}

fn record(contract: &mut LeagueContract, name: &str, a: &str, b: &str, won: bool) -> Result<(), LeagueError> {
    contract.add_game(
        name.to_string(),
        (a.to_string(), b.to_string()),
        won,
        "{}".to_string(),
        "owner".to_string(),
    )
}

#[test]
fn pair_is_canonical_and_commutes() {
    let p = PlayerPair::new(2, 0);
    let q = PlayerPair::new(0, 2);
    assert_eq!(p, q);
    assert_eq!(p.first(), 0);
    assert_eq!(p.second(), 2);
    assert!(p.is_swapped(2));
    assert!(!p.is_swapped(0));
    let same = PlayerPair::new(1, 1);
    assert_eq!((same.first(), same.second()), (1, 1));
}

#[test]
fn winner_best_of_three() {
    assert_eq!(played(&[]).winner(3), Winner::Undecided);
    assert_eq!(played(&[true]).winner(3), Winner::Undecided);
    assert_eq!(played(&[true, false]).winner(3), Winner::Undecided);
    assert_eq!(played(&[true, true]).winner(3), Winner::FirstPlayer);
    assert_eq!(played(&[false, false]).winner(3), Winner::SecondPlayer);
    assert_eq!(played(&[true, false, false]).winner(3), Winner::SecondPlayer);
    assert_eq!(played(&[false, true, true]).winner(3), Winner::FirstPlayer);
}

#[test]
fn winner_stays_once_reached() {
    assert_eq!(played(&[true, true, true]).winner(3), Winner::FirstPlayer);
    assert_eq!(played(&[false, false, true]).winner(3), Winner::SecondPlayer);
}

#[test]
fn winner_ignores_games_past_best_of() {
    assert_eq!(played(&[true, false, true, false, false]).winner(3), Winner::FirstPlayer);
    assert_eq!(played(&[true, false, false, false]).winner(1), Winner::FirstPlayer);
}

#[test]
fn winner_best_of_one_and_five() {
    assert_eq!(played(&[]).winner(1), Winner::Undecided);
    assert_eq!(played(&[false]).winner(1), Winner::SecondPlayer);
    assert_eq!(played(&[true, false, false, true]).winner(5), Winner::Undecided);
    assert_eq!(played(&[true, false, false, true, true]).winner(5), Winner::FirstPlayer);
}

#[test]
fn winner_exist() {
    assert!(Winner::FirstPlayer.exist());
    assert!(Winner::SecondPlayer.exist());
    assert!(!Winner::Undecided.exist());
}

#[test]
fn standard_data_accepts_fieldless_records() {
    assert_eq!(StandardGameData::convert(&"{}".to_string()), Some(Vec::new()));
    assert_eq!(StandardGameData::convert(&" { \"house\": true } ".to_string()), Some(Vec::new()));
    assert_eq!(StandardGameData::convert(&"[]".to_string()), Some(Vec::new()));
    assert_eq!(StandardGameData::convert(&" \n[ \t]\r ".to_string()), Some(Vec::new()));
}

#[test]
fn standard_data_rejects_other_text() {
    assert_eq!(StandardGameData::convert(&"{house: true}".to_string()), None);
    assert_eq!(StandardGameData::convert(&"".to_string()), None);
    assert_eq!(StandardGameData::convert(&"[1]".to_string()), None);
    assert_eq!(StandardGameData::convert(&"[,]".to_string()), None);
    assert_eq!(StandardGameData::convert(&"[] x".to_string()), None);
    assert_eq!(StandardGameData::convert(&"true".to_string()), None);
    assert_eq!(StandardGameData::convert(&"{} {}".to_string()), None);
}

#[test]
fn standard_data_round_trip() {
    for text in ["{}", "{\"a\": [1, 2]}", "[ ]"] {
        let bytes = StandardGameData::convert(&text.to_string()).unwrap();
        let back = StandardGameData::convert_back(&bytes);
        assert_eq!(back, "{}");
        assert_eq!(StandardGameData::convert(&back), Some(bytes));
    }
}

#[test]
fn game_records_winner_and_content() {
    let g = Game::new_with_data(false, GameType::StandardGameType, &"{\"x\": 1}".to_string()).unwrap();
    assert!(!g.first_player_won());
    assert_eq!(g.game_content(&GameType::StandardGameType), "{}");
    assert!(Game::new_with_data(true, GameType::StandardGameType, &"nope".to_string()).is_none());
}

#[test]
fn keys_extend_the_digest() {
    let keys = CollectionKeyTuple::new("abc");
    let digest: Vec<u8> = vec![
        0xba, 0x78, 0x16, 0xbf, 0x8f, 0x01, 0xcf, 0xea, 0x41, 0x41, 0x40, 0xde, 0x5d, 0xae, 0x22, 0x23,
        0xb0, 0x03, 0x61, 0xa3, 0x96, 0x17, 0x7a, 0x9c, 0xb4, 0x10, 0xff, 0x61, 0xf2, 0x00, 0x15, 0xad,
    ];
    let mut expected = digest.clone();
    expected.push(0);
    assert_eq!(keys.get_players_key(), expected);
    expected[32] = 1;
    assert_eq!(keys.get_trusted_key(), expected);
    expected[32] = 2;
    assert_eq!(keys.get_matches_key(), expected);
    assert_eq!(keys.get_trusted_key().len(), 33);
}

#[test]
fn properties_getters() {
    let p = UpgradeableLeagueProperties::V1(LeagueProperties { best_of: 5, game_type: GameType::StandardGameType });
    assert_eq!(p.get_best_of(), 5);
    assert_eq!(p.get_game_type(), GameType::StandardGameType);
}

#[test]
fn create_rejections() {
    let mut contract = LeagueContract::new();
    let owner = "owner".to_string();
    let g = GameType::StandardGameType;
    assert_eq!(
        contract.create_league("SomeLeague".to_string(), roster(), vec![], 2, g, owner.clone()),
        Err(LeagueError::EvenBestOf)
    );
    assert_eq!(
        contract.create_league("SomeLeague".to_string(), roster(), vec![], 0, g, owner.clone()),
        Err(LeagueError::EvenBestOf)
    );
    assert_eq!(
        contract.create_league("SomeLeague".to_string(), roster()[..2].to_vec(), vec![], 3, g, owner.clone()),
        Err(LeagueError::TooFewPlayers)
    );
    assert_eq!(
        contract.create_league("ab".to_string(), roster(), vec![], 3, g, owner.clone()),
        Err(LeagueError::NameTooShort)
    );
    assert!(contract.get_league(&"SomeLeague".to_string()).is_none());
    assert_eq!(contract.create_league("abc".to_string(), roster(), vec![], 3, g, owner), Ok(()));
}

#[test]
fn large_roster_is_accepted() {
    let mut contract = LeagueContract::new();
    let crowd: Vec<String> = (0..300).map(|i| format!("p{}", i)).collect();
    let r = contract.create_league("Crowd".to_string(), crowd, vec![], 1, GameType::StandardGameType, "o".to_string());
    assert_eq!(r, Ok(()));
    assert_eq!(record(&mut contract, "Crowd", "p299", "p0", true), Err(LeagueError::NotAllowed));
    let r = contract.add_game(
        "Crowd".to_string(),
        ("p299".to_string(), "p0".to_string()),
        true,
        "{}".to_string(),
        "o".to_string(),
    );
    assert_eq!(r, Ok(()));
    let league = contract.get_league(&"Crowd".to_string()).unwrap();
    let m = league.get_match(&PlayerPair::new(0, 299)).unwrap();
    assert_eq!(m.winner(1), Winner::SecondPlayer);
}

#[test]
fn unknown_league() {
    let mut contract = LeagueContract::new();
    assert_eq!(record(&mut contract, "Nowhere", "Alice", "Bob", true), Err(LeagueError::LeagueNotFound));
    assert_eq!(contract.delete_league("Nowhere".to_string(), true, "owner".to_string()), Err(LeagueError::LeagueNotFound));
}

#[test]
fn authorization() {
    let (mut contract, name) = league_with(3, vec!["mod".to_string(), "owner".to_string()]);
    let league = contract.get_league(&name).unwrap();
    assert!(league.caller_is_owner(&"owner".to_string()));
    assert!(!league.caller_is_owner(&"mod".to_string()));
    assert!(league.caller_is_allowed(&"owner".to_string()));
    assert!(league.caller_is_allowed(&"mod".to_string()));
    assert!(!league.caller_is_allowed(&"stranger".to_string()));
    let r = contract.add_game(
        name.clone(),
        ("Alice".to_string(), "Bob".to_string()),
        true,
        "{}".to_string(),
        "stranger".to_string(),
    );
    assert_eq!(r, Err(LeagueError::NotAllowed));
    let league = contract.get_league(&name).unwrap();
    assert!(league.get_match(&PlayerPair::new(0, 1)).is_none());
}

#[test]
fn storage_keys_follow_the_name() {
    let (contract, name) = league_with(3, vec![]);
    let league = contract.get_league(&name).unwrap();
    let expected = CollectionKeyTuple::new("SomeLeague");
    assert_eq!(league.storage_keys().get_matches_key(), expected.get_matches_key());
    assert_eq!(league.storage_keys().get_players_key().len(), 33);
}

#[test]
fn scenario_two_wins_decide_best_of_three() {
    let (mut contract, name) = league_with(3, vec![]);
    assert_eq!(record(&mut contract, &name, "Alice", "Bob", true), Ok(()));
    let m = contract.get_league(&name).unwrap().get_match(&PlayerPair::new(0, 1)).unwrap();
    assert_eq!(m.winner(3), Winner::Undecided);
    assert_eq!(record(&mut contract, &name, "Alice", "Bob", true), Ok(()));
    let m = contract.get_league(&name).unwrap().get_match(&PlayerPair::new(0, 1)).unwrap();
    assert_eq!(m.winner(3), Winner::FirstPlayer);
    assert_eq!(record(&mut contract, &name, "Alice", "Bob", true), Err(LeagueError::MatchFinished));
}

#[test]
fn scenario_best_of_one_league_finishes() {
    let (mut contract, name) = league_with(1, vec![]);
    assert_eq!(record(&mut contract, &name, "Alice", "Bob", true), Ok(()));
    assert!(!contract.get_league(&name).unwrap().is_finished());
    assert_eq!(record(&mut contract, &name, "Alice", "Charly", false), Ok(()));
    assert!(!contract.get_league(&name).unwrap().is_finished());
    assert_eq!(record(&mut contract, &name, "Bob", "Charly", true), Ok(()));
    assert!(contract.get_league(&name).unwrap().is_finished());
    assert_eq!(contract.delete_league(name.clone(), false, "owner".to_string()), Ok(()));
    assert!(contract.get_league(&name).is_none());
}

#[test]
fn unfinished_while_a_match_is_undecided() {
    let (mut contract, name) = league_with(3, vec![]);
    assert_eq!(record(&mut contract, &name, "Alice", "Bob", true), Ok(()));
    assert_eq!(record(&mut contract, &name, "Alice", "Bob", true), Ok(()));
    assert_eq!(record(&mut contract, &name, "Alice", "Charly", true), Ok(()));
    assert_eq!(record(&mut contract, &name, "Alice", "Charly", true), Ok(()));
    assert_eq!(record(&mut contract, &name, "Bob", "Charly", true), Ok(()));
    assert!(!contract.get_league(&name).unwrap().is_finished());
    assert_eq!(contract.delete_league(name.clone(), false, "owner".to_string()), Err(LeagueError::NotFinished));
    assert_eq!(record(&mut contract, &name, "Charly", "Bob", false), Ok(()));
    assert!(contract.get_league(&name).unwrap().is_finished());
}

#[test]
fn scenario_same_player_twice() {
    let (mut contract, name) = league_with(3, vec![]);
    assert_eq!(record(&mut contract, &name, "Alice", "Alice", true), Err(LeagueError::SamePlayers));
    assert_eq!(record(&mut contract, &name, "Malory", "Malory", true), Err(LeagueError::SamePlayers));
}

#[test]
fn scenario_unknown_player_changes_nothing() {
    let (mut contract, name) = league_with(3, vec![]);
    assert_eq!(record(&mut contract, &name, "Malory", "Bob", true), Err(LeagueError::PlayerNotFound));
    assert_eq!(record(&mut contract, &name, "Bob", "Malory", true), Err(LeagueError::PlayerNotFound));
    let league = contract.get_league(&name).unwrap();
    assert!(league.get_match(&PlayerPair::new(0, 1)).is_none());
    assert!(league.get_match(&PlayerPair::new(1, 2)).is_none());
    assert!(league.get_match(&PlayerPair::new(0, 2)).is_none());
}

#[test]
fn flag_follows_canonical_order() {
    let (mut contract, name) = league_with(1, vec![]);
    assert_eq!(record(&mut contract, &name, "Bob", "Alice", true), Ok(()));
    let m = contract.get_league(&name).unwrap().get_match(&PlayerPair::new(1, 0)).unwrap();
    assert_eq!(m.winner(1), Winner::SecondPlayer);
    assert_eq!(record(&mut contract, &name, "Charly", "Alice", false), Ok(()));
    let m = contract.get_league(&name).unwrap().get_match(&PlayerPair::new(0, 2)).unwrap();
    assert_eq!(m.winner(1), Winner::FirstPlayer);
}

#[test]
fn duplicate_roster_name_resolves_to_first() {
    let mut contract = LeagueContract::new();
    let players = vec!["Alice".to_string(), "Bob".to_string(), "Alice".to_string()];
    let r = contract.create_league("Dup".to_string(), players, vec![], 1, GameType::StandardGameType, "owner".to_string());
    assert_eq!(r, Ok(()));
    assert_eq!(record(&mut contract, "Dup", "Bob", "Alice", true), Ok(()));
    let league = contract.get_league(&"Dup".to_string()).unwrap();
    assert!(league.get_match(&PlayerPair::new(0, 1)).is_some());
    assert!(league.get_match(&PlayerPair::new(1, 2)).is_none());
}

#[test]
fn invalid_data_leaves_match_alone() {
    let (mut contract, name) = league_with(3, vec![]);
    let r = contract.add_game(
        name.clone(),
        ("Alice".to_string(), "Bob".to_string()),
        true,
        "[1]".to_string(),
        "owner".to_string(),
    );
    assert_eq!(r, Err(LeagueError::InvalidGameData));
    assert!(contract.get_league(&name).unwrap().get_match(&PlayerPair::new(0, 1)).is_none());
}
