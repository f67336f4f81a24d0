use vstd::prelude::*;

use crate::proposal::Proposal;

verus! {

/// What the node offers, as the negotiator turns it into an offer.
pub struct NodeInfo {
    pub name: String,
    pub offer: Proposal,
}

/// A proposal received from a requestor, with the offer it answers.
pub struct AgreementProposal {
    pub id: String,
    pub offer: Proposal,
}

pub enum ProposalResponse {
    AcceptProposal,
    CounterProposal { proposal: Proposal },
    IgnoreProposal,
    RejectProposal,
}

#[derive(PartialEq, Eq, Structural, Clone, Copy, Debug)]
pub enum AgreementResponse {
    ApproveAgreement,
    RejectAgreement,
}

pub enum NegotiatorError {
    NoOffer,
    Failed(String),
}

/// A negotiation strategy: it shapes the offer and answers proposals and
/// agreements.
pub trait Negotiator {
    fn create_offer(&mut self, node_info: NodeInfo) -> Result<Proposal, NegotiatorError>;

    fn react_to_proposal(&mut self, proposal: &AgreementProposal) -> Result<ProposalResponse, NegotiatorError>;

    fn react_to_agreement(&mut self, agreement: &AgreementProposal) -> Result<AgreementResponse, NegotiatorError>;
}

/// The strategy that offers what the node has and takes every proposal and
/// agreement.
pub struct AcceptAllNegotiator;

impl AcceptAllNegotiator {
    pub fn new() -> (r: AcceptAllNegotiator) {
        AcceptAllNegotiator
    }
}

impl Negotiator for AcceptAllNegotiator {
    fn create_offer(&mut self, node_info: NodeInfo) -> (r: Result<Proposal, NegotiatorError>)
        ensures
            r == Ok::<Proposal, NegotiatorError>(node_info.offer),
    {
        Ok(node_info.offer)
    }

    fn react_to_proposal(&mut self, proposal: &AgreementProposal) -> (r: Result<ProposalResponse, NegotiatorError>)
        ensures
            r matches Ok(ProposalResponse::AcceptProposal),
    {
        Ok(ProposalResponse::AcceptProposal)
    }

    fn react_to_agreement(&mut self, agreement: &AgreementProposal) -> (r: Result<AgreementResponse, NegotiatorError>)
        ensures
            r matches Ok(AgreementResponse::ApproveAgreement),
    {
        Ok(AgreementResponse::ApproveAgreement)
    }
}

/// The strategy picked for a configured name; `known` is false where the
/// name is not one of the strategies and the default was taken.
pub struct NegotiatorChoice {
    pub negotiator: AcceptAllNegotiator,
    pub known: bool,
}

pub(crate) fn str_equals(a: &str, b: &str) -> (r: bool)
    ensures
        r == (a@ == b@),
{
    let n = a.unicode_len();
    if n != b.unicode_len() {
        return false;
    }
    let mut i: usize = 0;
    while i < n
        invariant
            n == a@.len(),
            n == b@.len(),
            i <= n,
            forall|k: int| 0 <= k < i ==> a@[k] == b@[k],
        decreases n - i,
    {
        if a.get_char(i) != b.get_char(i) {
            return false;
        }
        i += 1;
    }
    proof {
        assert(a@ =~= b@);
    }
    true
}

/// The strategy named `name`; unknown names fall back to accepting all.
pub fn create_negotiator(name: &str) -> (r: NegotiatorChoice)
    ensures
        r.known == (name@ == "AcceptAll"@),
{
    let known = str_equals(name, "AcceptAll");
    NegotiatorChoice { negotiator: AcceptAllNegotiator::new(), known }
}

/// An event collected for a subscription: a requestor's proposal, or an
/// agreement on one of them. The transport may leave fields out.
pub enum ProviderEvent {
    DemandEvent { demand: Option<Proposal> },
    NewAgreementEvent { agreement_id: Option<String>, demand: Option<Proposal> },
}

/// The next transport call that an event asks for.
pub enum EventRequest {
    /// Fetch proposal `proposal_id`, then react to it as a proposal.
    ReactToProposal { proposal_id: String },
    /// Fetch proposal `proposal_id`, then react to agreement `agreement_id`.
    ReactToAgreement { agreement_id: String, proposal_id: String },
}

#[derive(PartialEq, Eq, Structural, Clone, Copy, Debug)]
pub enum EventError {
    MissingDemand,
    MissingAgreementId,
}

/// The transport call that answers a proposal.
pub enum ProposalReaction {
    /// Send `body` to `subscription_id` as the answer to `parent_id`.
    Accept { subscription_id: String, parent_id: String, body: Proposal },
    /// Mark `parent_id` countered, then send `body` as its answer.
    Counter { subscription_id: String, parent_id: String, body: Proposal },
    /// Nothing to send.
    Ignore { proposal_id: String },
    /// Reject `proposal_id` on `subscription_id`.
    Reject { subscription_id: String, proposal_id: String },
    /// The negotiator failed; the event is dropped and the batch goes on.
    NegotiatorFailed { proposal_id: String, error: NegotiatorError },
}

/// The transport call that answers an agreement.
pub enum AgreementReaction {
    Approve { agreement_id: String },
    Reject { agreement_id: String },
    NegotiatorFailed { agreement_id: String, error: NegotiatorError },
}

/// One collect call: at most `max_events` events, waiting at most
/// `timeout_secs` seconds.
pub struct CollectRequest {
    pub subscription_id: String,
    pub max_events: i32,
    pub timeout_secs: u32,
}

pub const COLLECT_MAX_EVENTS: i32 = 1;

pub const COLLECT_TIMEOUT_SECS: u32 = 2;

pub struct OfferSubscription {
    pub subscription_id: String,
    pub offer: Proposal,
}

/// The transport call that a proposal reaction owes, given what the
/// negotiator answered.
pub open spec fn proposal_reaction_spec(
    subscription_id: String,
    proposal: AgreementProposal,
    response: Result<ProposalResponse, NegotiatorError>,
) -> ProposalReaction {
    match response {
        Ok(ProposalResponse::AcceptProposal) => ProposalReaction::Accept {
            subscription_id,
            parent_id: proposal.id,
            body: proposal.offer,
        },
        Ok(ProposalResponse::CounterProposal { proposal: body }) => ProposalReaction::Counter {
            subscription_id,
            parent_id: proposal.id,
            body,
        },
        Ok(ProposalResponse::IgnoreProposal) => ProposalReaction::Ignore { proposal_id: proposal.id },
        Ok(ProposalResponse::RejectProposal) => ProposalReaction::Reject {
            subscription_id,
            proposal_id: proposal.id,
        },
        Err(error) => ProposalReaction::NegotiatorFailed { proposal_id: proposal.id, error },
    }
}

pub open spec fn agreement_reaction_spec(
    agreement_id: String,
    response: Result<AgreementResponse, NegotiatorError>,
) -> AgreementReaction {
    match response {
        Ok(AgreementResponse::ApproveAgreement) => AgreementReaction::Approve { agreement_id },
        Ok(AgreementResponse::RejectAgreement) => AgreementReaction::Reject { agreement_id },
        Err(error) => AgreementReaction::NegotiatorFailed { agreement_id, error },
    }
}

/// How the engine answers a proposal once the negotiator has spoken.
pub fn proposal_reaction(
    subscription_id: String,
    proposal: AgreementProposal,
    response: Result<ProposalResponse, NegotiatorError>,
) -> (r: ProposalReaction)
    ensures
        r == proposal_reaction_spec(subscription_id, proposal, response),
{
    match response {
        Ok(ProposalResponse::AcceptProposal) => ProposalReaction::Accept {
            subscription_id,
            parent_id: proposal.id,
            body: proposal.offer,
        },
        Ok(ProposalResponse::CounterProposal { proposal: body }) => ProposalReaction::Counter {
            subscription_id,
            parent_id: proposal.id,
            body,
        },
        Ok(ProposalResponse::IgnoreProposal) => ProposalReaction::Ignore { proposal_id: proposal.id },
        Ok(ProposalResponse::RejectProposal) => ProposalReaction::Reject {
            subscription_id,
            proposal_id: proposal.id,
        },
        Err(error) => ProposalReaction::NegotiatorFailed { proposal_id: proposal.id, error },
    }
}

/// How the engine answers an agreement once the negotiator has spoken.
pub fn agreement_reaction(
    agreement_id: String,
    response: Result<AgreementResponse, NegotiatorError>,
) -> (r: AgreementReaction)
    ensures
        r == agreement_reaction_spec(agreement_id, response),
{
    match response {
        Ok(AgreementResponse::ApproveAgreement) => AgreementReaction::Approve { agreement_id },
        Ok(AgreementResponse::RejectAgreement) => AgreementReaction::Reject { agreement_id },
        Err(error) => AgreementReaction::NegotiatorFailed { agreement_id, error },
    }
}

/// Which proposal an event refers to, and what to do with it once fetched.
pub fn dispatch_event(event: ProviderEvent) -> (r: Result<EventRequest, EventError>)
    ensures
        match event {
            ProviderEvent::DemandEvent { demand } => match demand {
                None => r == Err::<EventRequest, EventError>(EventError::MissingDemand),
                Some(d) => r matches Ok(EventRequest::ReactToProposal { proposal_id }) && proposal_id == d.id,
            },
            ProviderEvent::NewAgreementEvent { agreement_id, demand } => match (agreement_id, demand) {
                (None, _) => r == Err::<EventRequest, EventError>(EventError::MissingAgreementId),
                (Some(_), None) => r == Err::<EventRequest, EventError>(EventError::MissingDemand),
                (Some(a), Some(d)) => r matches Ok(EventRequest::ReactToAgreement { agreement_id: x, proposal_id: y })
                    && x == a && y == d.id,
            },
        },
{
    match event {
        ProviderEvent::DemandEvent { demand } => match demand {
            None => Err(EventError::MissingDemand),
            Some(d) => Ok(EventRequest::ReactToProposal { proposal_id: d.id }),
        },
        ProviderEvent::NewAgreementEvent { agreement_id, demand } => match agreement_id {
            None => Err(EventError::MissingAgreementId),
            Some(a) => match demand {
                None => Err(EventError::MissingDemand),
                Some(d) => Ok(EventRequest::ReactToAgreement { agreement_id: a, proposal_id: d.id }),
            },
        },
    }
}

/// The provider side of the market: a negotiator and the offers it has
/// subscribed.
pub struct ProviderMarket<N: Negotiator> {
    pub negotiator: N,
    pub offers: Vec<OfferSubscription>,
}

impl ProviderMarket<AcceptAllNegotiator> {
    /// A market with no offers yet, negotiating with the strategy named
    /// `negotiator_type`; `known` tells whether the name was recognised.
    pub fn new(negotiator_type: &str) -> (r: (ProviderMarket<AcceptAllNegotiator>, bool))
        ensures
            r.0.offers@.len() == 0,
            r.1 == (negotiator_type@ == "AcceptAll"@),
    {
        let choice = create_negotiator(negotiator_type);
        (ProviderMarket { negotiator: choice.negotiator, offers: Vec::new() }, choice.known)
    }
}

impl<N: Negotiator> ProviderMarket<N> {
    pub fn with_negotiator(negotiator: N) -> (r: ProviderMarket<N>)
        ensures
            r.offers@.len() == 0,
    {
        ProviderMarket { negotiator, offers: Vec::new() }
    }

    /// Asks the negotiator for the offer that this node publishes; the
    /// caller subscribes it and records it with `add_offer`.
    pub fn create_offers(&mut self, node_info: NodeInfo) -> (r: Result<Proposal, NegotiatorError>)
        ensures
            final(self).offers == old(self).offers,
    {
        self.negotiator.create_offer(node_info)
    }

    /// Records an offer once the transport has subscribed it.
    pub fn add_offer(&mut self, subscription_id: String, offer: Proposal)
        ensures
            final(self).offers@ == old(self).offers@.push(OfferSubscription { subscription_id, offer }),
    {
        self.offers.push(OfferSubscription { subscription_id, offer });
    }

    /// The collect calls of one market step: one per subscribed offer, in
    /// subscription order, each for at most one event and two seconds.
    pub fn run_step(&self) -> (r: Vec<CollectRequest>)
        ensures
            r@.len() == self.offers@.len(),
            forall|i: int| 0 <= i < r@.len() ==> {
                &&& (#[trigger] r@[i]).subscription_id@ == self.offers@[i].subscription_id@
                &&& r@[i].max_events == COLLECT_MAX_EVENTS
                &&& r@[i].timeout_secs == COLLECT_TIMEOUT_SECS
            },
    {
        let mut out: Vec<CollectRequest> = Vec::new();
        let mut i: usize = 0;
        while i < self.offers.len()
            invariant
                i <= self.offers@.len(),
                out@.len() == i,
                forall|k: int| 0 <= k < i ==> {
                    &&& (#[trigger] out@[k]).subscription_id@ == self.offers@[k].subscription_id@
                    &&& out@[k].max_events == COLLECT_MAX_EVENTS
                    &&& out@[k].timeout_secs == COLLECT_TIMEOUT_SECS
                },
            decreases self.offers@.len() - i,
        {
            out.push(
                CollectRequest {
                    subscription_id: self.offers[i].subscription_id.clone(),
                    max_events: COLLECT_MAX_EVENTS,
                    timeout_secs: COLLECT_TIMEOUT_SECS,
                },
            );
            i += 1;
        }
        out
    }

    /// The subscriptions to cancel at shutdown, in subscription order.
    pub fn onshutdown(&self) -> (r: Vec<String>)
        ensures
            r@.len() == self.offers@.len(),
            forall|i: int| 0 <= i < r@.len() ==> (#[trigger] r@[i])@ == self.offers@[i].subscription_id@,
    {
        let mut out: Vec<String> = Vec::new();
        let mut i: usize = 0;
        while i < self.offers.len()
            invariant
                i <= self.offers@.len(),
                out@.len() == i,
                forall|k: int| 0 <= k < i ==> (#[trigger] out@[k])@ == self.offers@[k].subscription_id@,
            decreases self.offers@.len() - i,
        {
            out.push(self.offers[i].subscription_id.clone());
            i += 1;
        }
        out
    }

    /// Asks the negotiator about `proposal` and turns its answer into the
    /// transport call to make.
    pub fn process_proposal(&mut self, subscription_id: String, proposal: AgreementProposal) -> (r: ProposalReaction)
        ensures
            final(self).offers == old(self).offers,
            exists|response: Result<ProposalResponse, NegotiatorError>|
                r == proposal_reaction_spec(subscription_id, proposal, response),
    {
        let response = self.negotiator.react_to_proposal(&proposal);
        proposal_reaction(subscription_id, proposal, response)
    }

    /// Asks the negotiator about the agreement anchored on `agreement` and
    /// turns its answer into the transport call to make.
    pub fn process_agreement(&mut self, agreement: &AgreementProposal, agreement_id: String) -> (r: AgreementReaction)
        ensures
            final(self).offers == old(self).offers,
            exists|response: Result<AgreementResponse, NegotiatorError>|
                r == agreement_reaction_spec(agreement_id, response),
    {
        let response = self.negotiator.react_to_agreement(agreement);
        agreement_reaction(agreement_id, response)
    }
}

} // verus!
