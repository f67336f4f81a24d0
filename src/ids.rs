use vstd::prelude::*;

verus! {

/// The side of a negotiation that authored a proposal or holds an agreement.
#[derive(PartialEq, Eq, Structural, Clone, Copy, Debug)]
pub enum OwnerType {
    Provider,
    Requestor,
}

/// A node identity taking part in the market.
pub type NodeId = u64;

/// A subscription identifier, unique within its issuer.
pub type SubscriptionId = u64;

pub open spec fn opposite(o: OwnerType) -> OwnerType {
    match o {
        OwnerType::Provider => OwnerType::Requestor,
        OwnerType::Requestor => OwnerType::Provider,
    }
}

pub fn opposite_owner(o: OwnerType) -> (r: OwnerType)
    ensures
        r == opposite(o),
        r != o,
{
    match o {
        OwnerType::Provider => OwnerType::Requestor,
        OwnerType::Requestor => OwnerType::Provider,
    }
}

/// Identifier of a proposal: a key and the side that authored it.
#[derive(PartialEq, Eq, Structural, Clone, Copy, Debug)]
pub struct ProposalId {
    pub owner: OwnerType,
    pub key: u64,
}

/// Identifier of an agreement: both sides hold mirror ids that differ in
/// the owner tag only.
#[derive(PartialEq, Eq, Structural, Clone, Copy, Debug)]
pub struct AgreementId {
    pub owner: OwnerType,
    pub key: u64,
}

pub open spec fn swapped_proposal(id: ProposalId) -> ProposalId {
    ProposalId { owner: opposite(id.owner), key: id.key }
}

pub open spec fn swapped_agreement(id: AgreementId) -> AgreementId {
    AgreementId { owner: opposite(id.owner), key: id.key }
}

impl ProposalId {
    pub fn new(owner: OwnerType, key: u64) -> (r: ProposalId)
        ensures
            r.owner == owner,
            r.key == key,
    {
        ProposalId { owner, key }
    }

    pub fn owner(&self) -> (r: OwnerType)
        ensures
            r == self.owner,
    {
        self.owner
    }

    /// The id under which the other side knows the same proposal.
    pub fn swap_owner(self) -> (r: ProposalId)
        ensures
            r == swapped_proposal(self),
            r != self,
    {
        ProposalId { owner: opposite_owner(self.owner), key: self.key }
    }
}

impl AgreementId {
    pub fn new(owner: OwnerType, key: u64) -> (r: AgreementId)
        ensures
            r.owner == owner,
            r.key == key,
    {
        AgreementId { owner, key }
    }

    pub fn owner(&self) -> (r: OwnerType)
        ensures
            r == self.owner,
    {
        self.owner
    }

    /// The id under which the other side knows the same agreement.
    pub fn swap_owner(self) -> (r: AgreementId)
        ensures
            r == swapped_agreement(self),
            r != self,
    {
        AgreementId { owner: opposite_owner(self.owner), key: self.key }
    }
}

/// Swapping the owner twice gives back the id.
pub proof fn lemma_swap_involutive(id: AgreementId)
    ensures
        swapped_agreement(swapped_agreement(id)) == id,
{
}

} // verus!
