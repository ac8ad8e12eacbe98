use vstd::prelude::*;

verus! {

/// Where a game stands.
#[derive(Clone, Copy, Debug, PartialEq, Eq, Structural, Hash)]
pub enum Status {
    AttackerWins,
    Draw,
    Ongoing,
    DefenderWins,
}

impl Status {
    /// The status of a game that has just begun.
    pub fn default() -> (s: Status)
        ensures
            s == Status::Ongoing,
    {
        Status::Ongoing
    }
}

} // verus!
