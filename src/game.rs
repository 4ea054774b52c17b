//! Game types and the record of one resolved game.

use vstd::prelude::*;
use crate::codec::{standard_decodes, standard_encoding, standard_text, StandardGameData};

verus! {

/// The kind of game a league plays; it fixes the shape of each game's data.
#[derive(Clone, Copy, Debug, PartialEq, Eq, Structural, Hash)]
pub enum GameType {
    StandardGameType,
}

/// The compact form of the game data that `text` holds for a game type, or
/// `None` where the text does not fit that type.
pub open spec fn encode_payload(game_type: GameType, text: Seq<char>) -> Option<Seq<u8>> {
    match game_type {
        GameType::StandardGameType => standard_encoding(text),
    }
}

/// Whether `bytes` is the compact form of some game data of a game type.
pub open spec fn payload_decodes(game_type: GameType, bytes: Seq<u8>) -> bool {
    match game_type {
        GameType::StandardGameType => standard_decodes(bytes),
    }
}

/// The human-readable form of game data given in its compact form.
pub open spec fn decode_payload(game_type: GameType, bytes: Seq<u8>) -> Seq<char> {
    match game_type {
        GameType::StandardGameType => standard_text(bytes),
    }
}

/// Whatever a game type encodes decodes again, to a text that encodes to
/// the same bytes.
pub proof fn lemma_payload_round_trip(game_type: GameType, text: Seq<char>)
    requires
        encode_payload(game_type, text) is Some,
    ensures
        payload_decodes(game_type, encode_payload(game_type, text)->0),
        encode_payload(
            game_type,
            decode_payload(game_type, encode_payload(game_type, text)->0),
        ) == encode_payload(game_type, text),
{
}

/// What a game records: which contestant of the match won, and the compact
/// form of the game's data.
pub struct GameRecord {
    pub first_player_won: bool,
    pub payload: Seq<u8>,
}

/// One resolved game between the two contestants of a `GameMatch`.
pub struct Game {
    first_player_is_winner: bool,
    game_data: Vec<u8>,
}

impl View for Game {
    type V = GameRecord;

    closed spec fn view(&self) -> GameRecord {
        GameRecord { first_player_won: self.first_player_is_winner, payload: self.game_data@ }
    }
}

impl Game {
    /// A game whose data is the JSON text `data`, validated and encoded for
    /// `game_type`; `None` where the text does not fit that type.
    pub fn new_with_data(first_player_is_winner: bool, game_type: GameType, data: &String) -> (r:
        Option<Self>)
        ensures
            match r {
                Some(game) => {
                    &&& encode_payload(game_type, data@) == Some(game@.payload)
                    &&& game@.first_player_won == first_player_is_winner
                },
                None => encode_payload(game_type, data@) is None,
            },
    {
        let game_data = match game_type {
            GameType::StandardGameType => StandardGameData::convert(data),
        };
        match game_data {
            Some(game_data) => Some(Game { first_player_is_winner, game_data }),
            None => None,
        }
    }

    /// Whether the first contestant of the match won this game.
    pub fn first_player_won(&self) -> (r: bool)
        ensures
            r == self@.first_player_won,
    {
        self.first_player_is_winner
    }

    /// The game's data in human-readable form.
    pub fn game_content(&self, game_type: &GameType) -> (r: String)
        requires
            payload_decodes(*game_type, self@.payload),
        ensures
            r@ == decode_payload(*game_type, self@.payload),
    {
        match game_type {
            GameType::StandardGameType => StandardGameData::convert_back(&self.game_data),
        }
    }
}

} // verus!
