use ya_market::state::AgreementState::{
    Approved, Cancelled, Expired, Pending, Proposal, Rejected, Terminated,
};
use ya_market::state::{check_transition, AgreementState, StateError};

const ALL: [AgreementState; 7] = [
    AgreementState::Proposal,
    AgreementState::Pending,
    AgreementState::Cancelled,
    AgreementState::Rejected,
    AgreementState::Approved,
    AgreementState::Expired,
    AgreementState::Terminated,
];

fn legal(from: AgreementState, to: AgreementState) -> bool {
    matches!(
        (from, to),
        (Proposal, Pending)
            | (Proposal, Cancelled)
            | (Proposal, Expired)
            | (Pending, Cancelled)
            | (Pending, Rejected)
            | (Pending, Approved)
            | (Pending, Expired)
            | (Approved, Terminated)
    )
}

#[test]
fn transition_table_is_exact() {
    for from in ALL {
        for to in ALL {
            let r = check_transition(from, to);
            if legal(from, to) {
                assert_eq!(r, Ok(()));
            } else {
                assert_eq!(r, Err(StateError::InvalidTransition { from, to }));
            }
        }
    }
}

#[test]
fn no_state_moves_to_itself() {
    for s in ALL {
        assert_eq!(check_transition(s, s), Err(StateError::InvalidTransition { from: s, to: s }));
    }
}

#[test]
fn terminal_states_admit_nothing() {
    for from in [Cancelled, Rejected, Expired, Terminated] {
        for to in ALL {
            assert!(check_transition(from, to).is_err());
        }
    }
}

#[test]
fn terminate_only_from_approved() {
    assert!(check_transition(AgreementState::Pending, AgreementState::Terminated).is_err());
    assert!(check_transition(AgreementState::Approved, AgreementState::Terminated).is_ok());
}
