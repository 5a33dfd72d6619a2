//! The resolution step's outcome: one address per lookup, or none.
//!
//! DNS resolution itself is a capability of the caller — it hands the
//! answer set in as plain addresses. The rule decided here is the one the
//! pipeline depends on: the first answer wins, in whatever order the
//! resolver returned them, and an empty answer set is a legitimate
//! "no address" outcome, not an error. A failure of the resolution
//! infrastructure is a distinct [`ResolutionError`].

use vstd::prelude::*;

use crate::ip::IpAddress;

verus! {

/// What resolution yielded: the single chosen address, or no address.
pub enum ResolveOutcome {
    /// Resolution answered; this is the first address of the answer set.
    Found { address: IpAddress },
    /// Resolution succeeded but the answer set was empty.
    NotFound,
}

/// A DNS infrastructure failure — no server reachable, a malformed query,
/// a timeout — distinct from the empty-answer outcome, carrying the
/// reporter's short description of the cause.
#[derive(Debug)]
pub struct ResolutionError {
    pub context: String,
}

impl ResolutionError {
    /// Wraps the reported cause of a resolution failure.
    pub fn new(context: String) -> (e: ResolutionError)
        ensures
            e.context == context,
    {
        ResolutionError { context }
    }

    /// A one-line human-readable description of the failure.
    pub fn message(&self) -> (r: String)
        ensures
            r@ == "Resolution failed: "@ + self.context@,
    {
        let mut s = String::from_str("Resolution failed: ");
        s.append(self.context.as_str());
        s
    }
}

/// Picks the address a lookup yields from the resolver's answer set: the
/// first answer if there is one, otherwise the "no address" outcome.
pub fn first_answer(answers: &Vec<IpAddress>) -> (r: ResolveOutcome)
    ensures
        answers@.len() == 0 ==> r is NotFound,
        answers@.len() > 0 ==> (r matches ResolveOutcome::Found { address } && address
            == answers@[0]),
{
    if answers.len() == 0 {
        ResolveOutcome::NotFound
    } else {
        ResolveOutcome::Found { address: answers[0] }
    }
}

} // verus!
