use ya_market::ids::{OwnerType, ProposalId};
use ya_market::proposal_store::{ProposalError, ProposalStore};

#[test]
fn save_initial_assigns_positions() {
    let mut s = ProposalStore::new();
    let a = s.save_initial(OwnerType::Requestor, 1, "demand".to_string(), 10, 100).unwrap();
    let b = s.save_initial(OwnerType::Provider, 2, "offer".to_string(), 11, 100).unwrap();
    assert_eq!(a, ProposalId::new(OwnerType::Requestor, 0));
    assert_eq!(b, ProposalId::new(OwnerType::Provider, 1));
    let row = s.get(a).unwrap();
    assert_eq!(row.subscription_id, 1);
    assert_eq!(row.prev_proposal_id, None);
    assert!(!row.accepted && !row.countered);
    assert_eq!(s.body(b).unwrap(), "offer");
    assert!(s.get(ProposalId::new(OwnerType::Provider, 0)).is_none());
    assert!(s.get(ProposalId::new(OwnerType::Requestor, 5)).is_none());
}

#[test]
fn counter_once_then_already_countered() {
    let mut s = ProposalStore::new();
    let p = s.save_initial(OwnerType::Requestor, 1, "d".to_string(), 0, 10).unwrap();
    assert!(!s.has_counter(p));
    let c = s.save_counter(p, 2, "b".to_string(), 1, 10).unwrap();
    assert!(s.has_counter(p));
    assert_eq!(c, ProposalId::new(OwnerType::Provider, 1));
    let child = s.get(c).unwrap();
    assert_eq!(child.prev_proposal_id, Some(p));
    assert_eq!(s.body(c).unwrap(), "b");
    assert_eq!(
        s.save_counter(p, 2, "b2".to_string(), 2, 10),
        Err(ProposalError::AlreadyCountered(p))
    );
    assert_eq!(s.rows().len(), 2);
}

#[test]
fn counter_of_missing_parent() {
    let mut s = ProposalStore::new();
    let missing = ProposalId::new(OwnerType::Requestor, 4);
    assert_eq!(
        s.save_counter(missing, 1, "b".to_string(), 0, 1),
        Err(ProposalError::ParentNotFound(missing))
    );
}

#[test]
fn accepted_and_countered_exclude_each_other() {
    let mut s = ProposalStore::new();
    let p = s.save_initial(OwnerType::Requestor, 1, "d".to_string(), 0, 10).unwrap();
    let q = s.save_initial(OwnerType::Requestor, 1, "e".to_string(), 0, 10).unwrap();
    assert_eq!(s.mark_accepted(p), Ok(()));
    assert_eq!(s.mark_countered(p), Err(ProposalError::AlreadyAccepted(p)));
    assert_eq!(
        s.save_counter(p, 1, "x".to_string(), 0, 1),
        Err(ProposalError::AlreadyAccepted(p))
    );
    assert_eq!(s.mark_countered(q), Ok(()));
    assert_eq!(s.mark_accepted(q), Err(ProposalError::AlreadyCountered(q)));
    for row in s.rows().iter() {
        assert!(!(row.accepted && row.countered));
    }
    let missing = ProposalId::new(OwnerType::Provider, 9);
    assert_eq!(s.mark_accepted(missing), Err(ProposalError::NotFound(missing)));
    assert_eq!(s.mark_countered(missing), Err(ProposalError::NotFound(missing)));
}
