//! The payload of a standard game: a record without fields.
//!
//! Its human-readable form is JSON text, read the way serde reads a struct
//! without fields: from a JSON object, whose members are ignored, or from an
//! empty JSON array. Its compact form writes no field, so it is empty.

use vstd::prelude::*;

verus! {

/// Whether serde_json reads `s` as exactly one JSON object.
pub uninterp spec fn json_object_text(s: Seq<char>) -> bool;

/// The characters JSON allows between tokens.
pub open spec fn is_json_whitespace(c: char) -> bool {
    c == ' ' || c == '\t' || c == '\n' || c == '\r'
}

/// Whether `s` holds JSON whitespace only.
pub open spec fn all_json_whitespace(s: Seq<char>) -> bool {
    forall|i: int| 0 <= i < s.len() ==> is_json_whitespace(#[trigger] s[i])
}

/// Whether `s` is one empty JSON array: `[` and `]` with whitespace only
/// before, between and after them.
pub open spec fn json_empty_array_text(s: Seq<char>) -> bool {
    exists|i: int, j: int|
        0 <= i < j < s.len() && s[i] == '[' && s[j] == ']' && all_json_whitespace(
            #[trigger] s.subrange(0, i),
        ) && all_json_whitespace(#[trigger] s.subrange(i + 1, j)) && all_json_whitespace(
            s.subrange(j + 1, s.len() as int),
        )
}

/// The JSON text `{}`.
pub open spec fn empty_object_text() -> Seq<char> {
    seq!['{', '}']
}

/// Relies on serde_json::from_str into a map from strings to
/// serde::de::IgnoredAny: it succeeds exactly when `s` is one JSON object,
/// such as `{}`, whatever its members hold.
#[verifier::external_body]
fn reads_as_json_object(s: &str) -> (r: bool)
    ensures
        r == (s@ == empty_object_text() || json_object_text(s@)),
{
    serde_json::from_str::<std::collections::BTreeMap<String, serde::de::IgnoredAny>>(s).is_ok()
}

/// Relies on serde_json::from_str into an array of no serde::de::IgnoredAny:
/// it succeeds exactly when `s` is one JSON array without elements, with
/// whitespace only around and inside it.
#[verifier::external_body]
fn reads_as_empty_json_array(s: &str) -> (r: bool)
    ensures
        r == json_empty_array_text(s@),
{
    serde_json::from_str::<[serde::de::IgnoredAny; 0]>(s).is_ok()
}

/// Whether `text` is the JSON form of a record without fields.
pub open spec fn standard_accepts(text: Seq<char>) -> bool {
    text == empty_object_text() || json_object_text(text) || json_empty_array_text(text)
}

/// The compact form of the standard game data that `text` holds, or `None`
/// where `text` holds none.
pub open spec fn standard_encoding(text: Seq<char>) -> Option<Seq<u8>> {
    if standard_accepts(text) {
        Some(Seq::empty())
    } else {
        None
    }
}

/// Whether `bytes` is the compact form of some standard game data: a record
/// without fields takes no byte, and leaves none over.
pub open spec fn standard_decodes(bytes: Seq<u8>) -> bool {
    bytes.len() == 0
}

/// The JSON form of the standard game data written as `bytes`.
pub open spec fn standard_text(bytes: Seq<u8>) -> Seq<char> {
    empty_object_text()
}

/// The data of a standard game, which has no fields.
#[derive(Clone, Copy, Debug, PartialEq, Eq, Structural)]
pub struct StandardGameData {}

impl StandardGameData {
    /// Validates JSON text as standard game data and gives its compact form,
    /// or `None` where the text is not such data.
    pub fn convert(data: &String) -> (r: Option<Vec<u8>>)
        ensures
            standard_encoding(data@) == match r {
                Some(bytes) => Some(bytes@),
                None => None::<Seq<u8>>,
            },
    {
        let text = data.as_str();
        if reads_as_json_object(text) || reads_as_empty_json_array(text) {
            Some(Vec::new())
        } else {
            None
        }
    }

    /// The JSON form of standard game data given in its compact form.
    pub fn convert_back(data: &Vec<u8>) -> (r: String)
        requires
            standard_decodes(data@),
        ensures
            r@ == standard_text(data@),
    {
        let text = String::from_str("{}");
        proof {
            reveal_strlit("{}");
        }
        text
    }
}

} // verus!
