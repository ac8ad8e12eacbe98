use vstd::prelude::*;

use crate::text::str_eq;

verus! {

/// Whether a game counts toward the players' ratings.
#[derive(Clone, Copy, Debug, PartialEq, Eq, Structural)]
pub enum Rated {
    No,
    Yes,
}

/// The text is neither `rated` nor `unrated`.
#[derive(Clone, Debug)]
pub struct RatedError {
    pub text: String,
}

impl Rated {
    /// Games are rated unless said otherwise.
    pub fn default() -> (r: Rated)
        ensures
            r == Rated::Yes,
    {
        Rated::Yes
    }

    /// The other choice.
    pub fn not(self) -> (r: Rated)
        ensures
            r != self,
    {
        match self {
            Rated::No => Rated::Yes,
            Rated::Yes => Rated::No,
        }
    }

    /// Rated exactly when `true`.
    pub fn from_bool(boolean: bool) -> (r: Rated)
        ensures
            (r == Rated::Yes) == boolean,
    {
        if boolean {
            Rated::Yes
        } else {
            Rated::No
        }
    }

    /// `true` exactly when rated.
    pub fn to_bool(self) -> (b: bool)
        ensures
            b == (self == Rated::Yes),
    {
        match self {
            Rated::Yes => true,
            Rated::No => false,
        }
    }

    /// The word for the choice.
    pub open spec fn spec_to_str(self) -> Seq<char> {
        match self {
            Rated::No => "unrated"@,
            Rated::Yes => "rated"@,
        }
    }

    /// `unrated` or `rated`.
    pub fn to_str(&self) -> (s: &'static str)
        ensures
            s@ == self.spec_to_str(),
    {
        match self {
            Rated::No => "unrated",
            Rated::Yes => "rated",
        }
    }

    /// Reads `rated` or `unrated`.
    pub fn from_str(string: &str) -> (r: Result<Rated, RatedError>)
        ensures
            string@ == "rated"@ ==> r == Ok::<Rated, RatedError>(Rated::Yes),
            string@ == "unrated"@ ==> r == Ok::<Rated, RatedError>(Rated::No),
            string@ != "rated"@ && string@ != "unrated"@ ==> (r matches Err(e) && e.text@ == string@),
    {
        proof {
            reveal_strlit("rated");
            reveal_strlit("unrated");
            assert("unrated"@[0] != "rated"@[0]);
            assert("unrated"@ != "rated"@);
        }
        if str_eq(string, "rated") {
            Ok(Rated::Yes)
        } else if str_eq(string, "unrated") {
            Ok(Rated::No)
        } else {
            Err(RatedError { text: string.to_string() })
        }
    }
}

} // verus!
