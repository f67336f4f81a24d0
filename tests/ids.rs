use ya_market::ids::{AgreementId, OwnerType, ProposalId};

#[test]
fn swap_owner_flips_owner_and_keeps_key() {
    let a = AgreementId::new(OwnerType::Provider, 7);
    let b = a.swap_owner();
    assert_eq!(b.owner(), OwnerType::Requestor);
    assert_eq!(b.key, 7);
    assert_eq!(b.swap_owner(), a);
    let p = ProposalId::new(OwnerType::Requestor, 3).swap_owner();
    assert_eq!(p, ProposalId::new(OwnerType::Provider, 3));
}
