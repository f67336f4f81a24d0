use vstd::prelude::*;

verus! {

/// Lifecycle state of an agreement.
#[derive(PartialEq, Eq, Structural, Clone, Copy, Debug)]
pub enum AgreementState {
    Proposal,
    Pending,
    Cancelled,
    Rejected,
    Approved,
    Expired,
    Terminated,
}

/// The legal transitions of an agreement.
pub open spec fn transition_allowed(from: AgreementState, to: AgreementState) -> bool {
    match from {
        AgreementState::Proposal => to == AgreementState::Pending || to == AgreementState::Cancelled
            || to == AgreementState::Expired,
        AgreementState::Pending => to == AgreementState::Cancelled || to == AgreementState::Rejected
            || to == AgreementState::Approved || to == AgreementState::Expired,
        AgreementState::Approved => to == AgreementState::Terminated,
        _ => false,
    }
}

/// A state from which no transition leads anywhere.
pub open spec fn is_terminal(s: AgreementState) -> bool {
    s == AgreementState::Cancelled || s == AgreementState::Rejected || s == AgreementState::Expired
        || s == AgreementState::Terminated
}

/// Why an agreement could not change state.
#[derive(PartialEq, Eq, Structural, Clone, Copy, Debug)]
pub enum StateError {
    InvalidTransition { from: AgreementState, to: AgreementState },
    NotFound { id: crate::ids::AgreementId },
}

/// Legality check of a state change: `Ok` exactly on the transitions of the
/// table, `InvalidTransition` naming both states on all others.
pub fn check_transition(from: AgreementState, to: AgreementState) -> (r: Result<(), StateError>)
    ensures
        r is Ok <==> transition_allowed(from, to),
        r is Err ==> r == Err::<(), StateError>(StateError::InvalidTransition { from, to }),
{
    match from {
        AgreementState::Proposal => match to {
            AgreementState::Pending => return Ok(()),
            AgreementState::Cancelled => return Ok(()),
            AgreementState::Expired => return Ok(()),
            _ => {},
        },
        AgreementState::Pending => match to {
            AgreementState::Cancelled => return Ok(()),
            AgreementState::Rejected => return Ok(()),
            AgreementState::Approved => return Ok(()),
            AgreementState::Expired => return Ok(()),
            _ => {},
        },
        AgreementState::Approved => match to {
            AgreementState::Terminated => return Ok(()),
            _ => {},
        },
        _ => {},
    }
    Err(StateError::InvalidTransition { from, to })
}

/// No state may move to itself.
pub proof fn lemma_no_self_transition(s: AgreementState)
    ensures
        !transition_allowed(s, s),
{
}

/// A terminal state admits no transition at all.
pub proof fn lemma_terminal_is_final(from: AgreementState, to: AgreementState)
    requires
        is_terminal(from),
    ensures
        !transition_allowed(from, to),
{
}

} // verus!
