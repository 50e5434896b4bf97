//! The closed set of states a supervised session can be in.

use vstd::prelude::*;

verus! {

/// High-level state of the supervised session. Every session starts in
/// [`SessionState::Working`].
#[derive(Debug, Clone, Copy, PartialEq, Eq, Structural)]
pub enum SessionState {
    Working,
    AwaitingApproval,
    /// The tool shows its prompt and waits for input.
    Idle,
    Completed,
    Error,
}

impl SessionState {
    /// The name of the state as it appears in a serialized event.
    pub open spec fn wire_name(self) -> Seq<char> {
        match self {
            SessionState::Working => "WORKING"@,
            SessionState::AwaitingApproval => "AWAITING_APPROVAL"@,
            SessionState::Idle => "IDLE"@,
            SessionState::Completed => "COMPLETED"@,
            SessionState::Error => "ERROR"@,
        }
    }

    /// The name of the state as it appears in a serialized event.
    pub fn as_str(&self) -> (name: &'static str)
        ensures
            name@ == self.wire_name(),
    {
        match self {
            SessionState::Working => "WORKING",
            SessionState::AwaitingApproval => "AWAITING_APPROVAL",
            SessionState::Idle => "IDLE",
            SessionState::Completed => "COMPLETED",
            SessionState::Error => "ERROR",
        }
    }
}

} // verus!
