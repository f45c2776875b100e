use vstd::prelude::*;

verus! {

/// Why an operation of the library was refused.
#[derive(Clone, Copy, Debug, PartialEq, Eq, Structural)]
pub enum PmError {
    /// A date of a filter is not a `YYYY-MM-DD` date.
    InvalidDate,
    /// No member has the given name.
    MemberNotFound,
    /// A game refers to a member identifier that the directory does not hold.
    UnknownMemberId,
    /// The four raw scores of a new game do not sum to 100000.
    ScoreSumMismatch,
}

} // verus!
