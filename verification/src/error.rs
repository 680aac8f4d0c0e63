//! Why a proof is rejected.

use crate::table::Table;
use vstd::prelude::*;

verus! {

/// A failed check. Every failure is final: the first one found is reported
/// and nothing is checked after it.
#[derive(Clone, Copy, Debug, PartialEq, Eq, Structural)]
pub enum VerifyError {
    /// The polynomial identity of a table does not hold at the challenge
    /// point.
    IdentityMismatch(Table),
    /// The low-degree opening proof of a table was not accepted.
    FriVerificationFailed(Table),
    /// A table's public inputs hold other lookup challenges than the
    /// transcript gives.
    ChallengeMismatch,
    /// The sponge state before the table at this position is not the state
    /// that the transcript was left in.
    ChallengerStateMismatch(usize),
    /// The accumulators of the lookup at this position do not cancel.
    CrossTableLookupMismatch(usize),
}

} // verus!
