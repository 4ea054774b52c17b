//! Storage keys for the collections of one league, derived from its name.
//!
//! The name is unique among leagues, so its SHA-256 digest, extended by one
//! distinguishing byte per collection, gives each league three keys of its own.

use vstd::prelude::*;
use vstd::string::StringSliceAdditionalSpecFns;

verus! {

/// The SHA-256 digest of `bytes`.
pub uninterp spec fn sha256_of(bytes: Seq<u8>) -> Seq<u8>;

/// Relies on near_sdk::env::sha256: the SHA-256 digest of `value`, 32 bytes
/// long.
#[verifier::external_body]
fn sha256(value: &[u8]) -> (r: Vec<u8>)
    ensures
        r@ == sha256_of(value@),
        r@.len() == 32,
{
    near_sdk::env::sha256(value)
}

/// The storage key derived from a league name's bytes for the collection
/// marked by `tag`.
pub open spec fn derived_key(seed: Seq<u8>, tag: u8) -> Seq<u8> {
    sha256_of(seed).push(tag)
}

/// The three storage keys of a league: for its roster, for its trusted
/// accounts and for its matches.
pub struct CollectionKeyTuple {
    players_key: Vec<u8>,
    trusted_key: Vec<u8>,
    matches_key: Vec<u8>,
}

impl View for CollectionKeyTuple {
    type V = (Seq<u8>, Seq<u8>, Seq<u8>);

    closed spec fn view(&self) -> (Seq<u8>, Seq<u8>, Seq<u8>) {
        (self.players_key@, self.trusted_key@, self.matches_key@)
    }
}

impl CollectionKeyTuple {
    /// The key of the roster collection.
    pub fn get_players_key(&self) -> (r: Vec<u8>)
        ensures
            r@ == self@.0,
    {
        let r = self.players_key.clone();
        assert(r@ =~= self@.0);
        r
    }

    /// The key of the trusted accounts collection.
    pub fn get_trusted_key(&self) -> (r: Vec<u8>)
        ensures
            r@ == self@.1,
    {
        let r = self.trusted_key.clone();
        assert(r@ =~= self@.1);
        r
    }

    /// The key of the matches collection.
    pub fn get_matches_key(&self) -> (r: Vec<u8>)
        ensures
            r@ == self@.2,
    {
        let r = self.matches_key.clone();
        assert(r@ =~= self@.2);
        r
    }

    /// The keys of the league named `seed`: its digest followed by 0, 1
    /// and 2.
    pub fn new(seed: &str) -> (r: Self)
        ensures
            r@.0 == derived_key(seed.spec_bytes(), 0),
            r@.1 == derived_key(seed.spec_bytes(), 1),
            r@.2 == derived_key(seed.spec_bytes(), 2),
            r@.0.len() == 33,
            r@.1.len() == 33,
            r@.2.len() == 33,
    {
        let mut r = sha256(seed.as_bytes());
        r.push(0);
        let last_index = r.len() - 1;
        let players_key = r.clone();
        assert(players_key@ =~= r@);
        r[last_index] = 1;
        let trusted_key = r.clone();
        assert(trusted_key@ =~= r@);
        r[last_index] = 2;
        let matches_key = r;
        let keys = CollectionKeyTuple { players_key, trusted_key, matches_key };
        assert(keys@.0 =~= derived_key(seed.spec_bytes(), 0));
        assert(keys@.1 =~= derived_key(seed.spec_bytes(), 1));
        assert(keys@.2 =~= derived_key(seed.spec_bytes(), 2));
        keys
    }
}

/// The three keys of one league differ from each other.
pub proof fn lemma_keys_distinct(seed: Seq<u8>)
    ensures
        derived_key(seed, 0) != derived_key(seed, 1),
        derived_key(seed, 1) != derived_key(seed, 2),
        derived_key(seed, 0) != derived_key(seed, 2),
{
    let d = sha256_of(seed);
    assert(derived_key(seed, 0)[d.len() as int] == 0);
    assert(derived_key(seed, 1)[d.len() as int] == 1);
    assert(derived_key(seed, 2)[d.len() as int] == 2);
}

} // verus!
