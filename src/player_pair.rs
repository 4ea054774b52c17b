//! Canonical, unordered keys for the two contestants of a match.

use vstd::prelude::*;

verus! {

/// The pair `(a, b)` with the smaller roster index first.
pub open spec fn canonical(a: usize, b: usize) -> (usize, usize) {
    if a <= b {
        (a, b)
    } else {
        (b, a)
    }
}

/// The contestants of a `GameMatch`, given by their roster indices.
///
/// The smaller index is always stored first, so the pair does not depend on
/// the order in which the two contestants were named.
#[derive(Clone, Copy, Debug, PartialEq, Eq, Structural, Hash)]
pub struct PlayerPair {
    first: usize,
    second: usize,
}

impl View for PlayerPair {
    type V = (usize, usize);

    closed spec fn view(&self) -> (usize, usize) {
        (self.first, self.second)
    }
}

impl PlayerPair {
    /// The pair of `first` and `second`, in canonical order.
    pub fn new(first: usize, second: usize) -> (r: Self)
        ensures
            r@ == canonical(first, second),
    {
        if first <= second {
            PlayerPair { first, second }
        } else {
            PlayerPair { first: second, second: first }
        }
    }

    /// The smaller roster index.
    pub fn first(&self) -> (r: usize)
        ensures
            r == self@.0,
    {
        self.first
    }

    /// The larger roster index.
    pub fn second(&self) -> (r: usize)
        ensures
            r == self@.1,
    {
        self.second
    }

    /// Whether a contestant that a caller named first ended up second here.
    ///
    /// A caller-relative flag such as "the first named contestant won" has to
    /// be flipped when this returns `true`.
    pub fn is_swapped(&self, should_be_first: usize) -> (r: bool)
        ensures
            r == (self@.0 != should_be_first),
    {
        self.first != should_be_first
    }

    /// Two pairs are equal exactly when their views are.
    pub proof fn lemma_eq_view(self, other: Self)
        ensures
            (self == other) <==> (self@ == other@),
    {
    }
}

/// Canonicalising ignores the order of its arguments, and always puts the
/// smaller index first.
pub proof fn lemma_canonical_commutes(a: usize, b: usize)
    ensures
        canonical(a, b) == canonical(b, a),
        canonical(a, b).0 <= canonical(a, b).1,
        canonical(a, b).0 == a || canonical(a, b).0 == b,
        canonical(a, b).1 == a || canonical(a, b).1 == b,
{
}

} // verus!
