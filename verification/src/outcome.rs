//! What the operations hand back besides data: the result of a join, and the
//! failures of posting and reading.

use crate::model::JoinOutcome;
use vstd::prelude::*;

verus! {

/// Why a post or a read was turned down.
#[derive(Clone, Copy, Debug, PartialEq, Eq, Structural)]
pub enum ChatError {
    /// The token belongs to no registered member.
    Unauthorized,
    /// The text is longer than the maximum.
    MessageTooLong,
}

/// The answer to a join attempt. A denial carries no reason: the username is
/// taken or a field is missing, and the answer does not tell which.
#[derive(Clone, Copy, Debug, PartialEq, Eq, Structural)]
pub enum JoinResult {
    Accepted { token: u64 },
    Denied,
}

impl View for JoinResult {
    type V = JoinOutcome;

    open spec fn view(&self) -> JoinOutcome {
        match *self {
            JoinResult::Accepted { token } => JoinOutcome::Accepted { token: token as nat },
            JoinResult::Denied => JoinOutcome::Denied,
        }
    }
}

impl JoinResult {
    /// Whether the join was accepted.
    pub fn is_accepted(&self) -> (accepted: bool)
        ensures
            accepted == (self@ is Accepted),
    {
        match self {
            JoinResult::Accepted { .. } => true,
            JoinResult::Denied => false,
        }
    }

    /// The token of an accepted join. A denial has none and gives 0, which
    /// no member ever holds.
    pub fn token(&self) -> (token: u64)
        ensures
            token == match *self {
                JoinResult::Accepted { token } => token,
                JoinResult::Denied => 0,
            },
    {
        match self {
            JoinResult::Accepted { token } => *token,
            JoinResult::Denied => 0,
        }
    }
}

/// The result of a post with its sequence number as a natural number.
pub open spec fn post_outcome(result: Result<u64, ChatError>) -> Result<nat, ChatError> {
    match result {
        Ok(sequence_number) => Ok(sequence_number as nat),
        Err(error) => Err(error),
    }
}

} // verus!
