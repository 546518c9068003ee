//! The maturity rating of a post.

use crate::text::chars_of;
use vstd::prelude::*;

verus! {

/// The rating of a post, from the mildest to the strongest. A post that nobody has
/// rated is `Unrated`.
#[derive(Clone, Copy, Debug, PartialEq, Eq, Structural, PartialOrd, Ord, Hash)]
pub enum Rating {
    Unrated,
    Safe,
    Questionable,
    Explicit,
}

/// The rating that a stored code stands for. Whatever is no known code is unrated.
pub open spec fn rating_of(code: Seq<char>) -> Rating {
    if code == seq!['s'] {
        Rating::Safe
    } else if code == seq!['q'] {
        Rating::Questionable
    } else if code == seq!['e'] {
        Rating::Explicit
    } else {
        Rating::Unrated
    }
}

impl Rating {
    /// The place of the rating in the order of ratings.
    pub open spec fn rank_of(self) -> int {
        match self {
            Rating::Unrated => 0,
            Rating::Safe => 1,
            Rating::Questionable => 2,
            Rating::Explicit => 3,
        }
    }

    /// The one-letter code under which the rating is stored and searched.
    pub open spec fn code_of(self) -> Seq<char> {
        match self {
            Rating::Unrated => seq!['u'],
            Rating::Safe => seq!['s'],
            Rating::Questionable => seq!['q'],
            Rating::Explicit => seq!['e'],
        }
    }

    /// The name of the rating as it is shown.
    pub open spec fn name_of(self) -> Seq<char> {
        match self {
            Rating::Unrated => "Unrated"@,
            Rating::Safe => "Safe"@,
            Rating::Questionable => "Questionable"@,
            Rating::Explicit => "Explicit"@,
        }
    }

    /// Reads a stored code.
    pub fn from_code(code: &str) -> (rating: Rating)
        ensures
            rating == rating_of(code@),
    {
        let v = chars_of(code);
        if v.len() != 1 {
            return Rating::Unrated;
        }
        let c = v[0];
        assert(v@ =~= seq![c]);
        if c == 's' {
            Rating::Safe
        } else if c == 'q' {
            assert(seq!['q'] != seq!['s']) by {
                assert(seq!['q'][0] != seq!['s'][0]);
            }
            Rating::Questionable
        } else if c == 'e' {
            assert(seq!['e'] != seq!['s'] && seq!['e'] != seq!['q']) by {
                assert(seq!['e'][0] != seq!['s'][0]);
                assert(seq!['e'][0] != seq!['q'][0]);
            }
            Rating::Explicit
        } else {
            assert(v@ != seq!['s'] && v@ != seq!['q'] && v@ != seq!['e']) by {
                assert(v@[0] != seq!['s'][0]);
                assert(v@[0] != seq!['q'][0]);
                assert(v@[0] != seq!['e'][0]);
            }
            Rating::Unrated
        }
    }

    /// The one-letter code under which the rating is stored and searched.
    pub fn code(&self) -> (code: &'static str)
        ensures
            code@ == self.code_of(),
    {
        proof {
            reveal_strlit("u");
            reveal_strlit("s");
            reveal_strlit("q");
            reveal_strlit("e");
        }
        let code = match self {
            Rating::Unrated => "u",
            Rating::Safe => "s",
            Rating::Questionable => "q",
            Rating::Explicit => "e",
        };
        assert(code@ =~= self.code_of());
        code
    }

    /// The name of the rating as it is shown.
    pub fn name(&self) -> (name: &'static str)
        ensures
            name@ == self.name_of(),
    {
        match self {
            Rating::Unrated => "Unrated",
            Rating::Safe => "Safe",
            Rating::Questionable => "Questionable",
            Rating::Explicit => "Explicit",
        }
    }

    /// The place of the rating in the order of ratings, the mildest first.
    pub fn rank(&self) -> (rank: u8)
        ensures
            rank == self.rank_of(),
    {
        match self {
            Rating::Unrated => 0,
            Rating::Safe => 1,
            Rating::Questionable => 2,
            Rating::Explicit => 3,
        }
    }

    /// Whether the rating is no stronger than `limit`.
    pub fn is_at_most(&self, limit: &Rating) -> (within: bool)
        ensures
            within == (self.rank_of() <= limit.rank_of()),
    {
        self.rank() <= limit.rank()
    }
}

impl From<String> for Rating {
    fn from(value: String) -> (rating: Rating) {
        Rating::from_code(value.as_str())
    }
}

impl vstd::std_specs::convert::FromSpecImpl<String> for Rating {
    open spec fn obeys_from_spec() -> bool {
        true
    }

    open spec fn from_spec(value: String) -> Rating {
        rating_of(value@)
    }
}

/// A code names its own rating, and ratings differ in rank: the codes of the four
/// ratings read back as the ratings they came from, in ascending order.
pub proof fn lemma_rating_codes_round_trip(rating: Rating)
    ensures
        rating_of(rating.code_of()) == rating,
{
    assert(seq!['q'][0] != seq!['s'][0]);
    assert(seq!['e'][0] != seq!['s'][0]);
    assert(seq!['e'][0] != seq!['q'][0]);
    assert(seq!['u'][0] != seq!['s'][0]);
    assert(seq!['u'][0] != seq!['q'][0]);
    assert(seq!['u'][0] != seq!['e'][0]);
}

} // verus!
