//! The answer of a function that alternates with work done elsewhere.
use vstd::prelude::*;

verus! {

/// What follows an event: an action whose outcome comes back as the next event, or the result
/// of the whole operation.
pub enum Step<A, R> {
    /// Do this, and report how it went.
    Perform(A),
    /// The operation is over, with this result.
    Return(R),
}

/// Stands for `std::task::Poll`, with its two variants.
#[verifier::external_type_specification]
pub struct ExPoll<T>(std::task::Poll<T>);

} // verus!
