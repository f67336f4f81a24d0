use ya_market::agreement::{Agreement, AgreementDao, AgreementEventKind, SaveAgreementError};
use ya_market::ids::{AgreementId, OwnerType};
use ya_market::market::{
    agreement_reaction, create_negotiator, dispatch_event, proposal_reaction, AgreementProposal,
    AgreementReaction, AgreementResponse, EventError, EventRequest, NegotiatorError, NodeInfo,
    ProposalReaction, ProposalResponse, ProviderEvent, ProviderMarket,
};
use ya_market::proposal::Proposal;
use ya_market::proposal_store::ProposalStore;
use ya_market::state::AgreementState;

fn wire(id: &str, constraints: &str) -> Proposal {
    Proposal::new(id.to_string(), serde_json::Value::Null, constraints.to_string())
}

#[test]
fn proposal_new_has_no_parent() {
    let p = Proposal::new("p".to_string(), serde_json::Value::Bool(true), "(a=1)".to_string());
    assert_eq!(p.id, "p");
    assert_eq!(p.properties, serde_json::Value::Bool(true));
    assert_eq!(p.constraints, "(a=1)");
    assert!(p.prev_proposal_id.is_none());
}

#[test]
fn negotiator_names() {
    assert!(create_negotiator("AcceptAll").known);
    assert!(!create_negotiator("Other").known);
    assert!(!create_negotiator("").known);
    let (market, known) = ProviderMarket::new("Nope");
    assert!(!known);
    assert!(market.offers.is_empty());
}

#[test]
fn dispatch_reads_event_fields() {
    match dispatch_event(ProviderEvent::DemandEvent { demand: Some(wire("d1", "")) }) {
        Ok(EventRequest::ReactToProposal { proposal_id }) => assert_eq!(proposal_id, "d1"),
        _ => panic!("expected a proposal request"),
    }
    match dispatch_event(ProviderEvent::NewAgreementEvent {
        agreement_id: Some("A".to_string()),
        demand: Some(wire("d1", "")),
    }) {
        Ok(EventRequest::ReactToAgreement { agreement_id, proposal_id }) => {
            assert_eq!(agreement_id, "A");
            assert_eq!(proposal_id, "d1");
        }
        _ => panic!("expected an agreement request"),
    }
    assert_eq!(
        dispatch_event(ProviderEvent::DemandEvent { demand: None }).err(),
        Some(EventError::MissingDemand)
    );
    assert_eq!(
        dispatch_event(ProviderEvent::NewAgreementEvent { agreement_id: None, demand: Some(wire("d", "")) }).err(),
        Some(EventError::MissingAgreementId)
    );
    assert_eq!(
        dispatch_event(ProviderEvent::NewAgreementEvent { agreement_id: Some("A".to_string()), demand: None }).err(),
        Some(EventError::MissingDemand)
    );
}

#[test]
fn happy_path_provider() {
    let (mut market, known) = ProviderMarket::new("AcceptAll");
    assert!(known);
    let offer = market
        .create_offers(NodeInfo { name: "node".to_string(), offer: wire("O", "offer-constraints") })
        .ok()
        .unwrap();
    market.add_offer("sub".to_string(), offer);
    let requests = market.run_step();
    assert_eq!(requests.len(), 1);
    assert_eq!(requests[0].subscription_id, "sub");
    assert_eq!(requests[0].max_events, 1);
    assert_eq!(requests[0].timeout_secs, 2);

    let d1 = match dispatch_event(ProviderEvent::DemandEvent { demand: Some(wire("d1", "")) }) {
        Ok(EventRequest::ReactToProposal { proposal_id }) => proposal_id,
        _ => panic!("expected a proposal request"),
    };
    let inbound = AgreementProposal { id: d1.clone(), offer: wire("O", "offer-constraints") };
    match market.process_proposal("sub".to_string(), inbound) {
        ProposalReaction::Accept { subscription_id, parent_id, body } => {
            assert_eq!(subscription_id, "sub");
            assert_eq!(parent_id, "d1");
            assert_eq!(body.constraints, "offer-constraints");
        }
        _ => panic!("expected acceptance"),
    }

    let mut props = ProposalStore::new();
    let pid = props.save_initial(OwnerType::Provider, 1, "O".to_string(), 0, 100).unwrap();
    let mut dao = AgreementDao::new();
    let a = Agreement {
        id: AgreementId::new(OwnerType::Provider, 1),
        offer_proposal_id: pid,
        provider_id: 10,
        requestor_id: 20,
        valid_to: 100,
        state: AgreementState::Proposal,
        session_id: None,
        created_ts: 0,
        approved_ts: None,
        terminated_ts: None,
    };
    let saved = dao.save(&mut props, a).unwrap();
    let inbound = AgreementProposal { id: d1, offer: wire("O", "") };
    match market.process_agreement(&inbound, "A".to_string()) {
        AgreementReaction::Approve { agreement_id } => assert_eq!(agreement_id, "A"),
        _ => panic!("expected approval"),
    }
    dao.confirm(&saved.id, None).unwrap();
    dao.approve(&saved.id, None, 1).unwrap();

    assert_eq!(props.rows().iter().filter(|r| r.accepted).count(), 1);
    assert_eq!(dao.agreements().len(), 1);
    assert_eq!(dao.agreements()[0].state, AgreementState::Approved);
    assert_eq!(dao.agreements()[0].offer_proposal_id, pid);
    assert_eq!(dao.events().len(), 1);
    assert_eq!(dao.events()[0].kind, AgreementEventKind::Approved);

    let ids = market.onshutdown();
    assert_eq!(ids, vec!["sub".to_string()]);
}

#[test]
fn counter_then_agreement() {
    let inbound = AgreementProposal { id: "d1".to_string(), offer: wire("O", "") };
    let reaction = proposal_reaction(
        "sub".to_string(),
        inbound,
        Ok(ProposalResponse::CounterProposal { proposal: wire("b2", "counter") }),
    );
    match reaction {
        ProposalReaction::Counter { subscription_id, parent_id, body } => {
            assert_eq!(subscription_id, "sub");
            assert_eq!(parent_id, "d1");
            assert_eq!(body.constraints, "counter");
        }
        _ => panic!("expected a counter"),
    }
    let mut props = ProposalStore::new();
    let d1 = props.save_initial(OwnerType::Requestor, 1, "d1".to_string(), 0, 100).unwrap();
    props.mark_countered(d1).unwrap();
    let mut dao = AgreementDao::new();
    let a = Agreement {
        id: AgreementId::new(OwnerType::Requestor, 1),
        offer_proposal_id: d1,
        provider_id: 10,
        requestor_id: 20,
        valid_to: 100,
        state: AgreementState::Proposal,
        session_id: None,
        created_ts: 0,
        approved_ts: None,
        terminated_ts: None,
    };
    assert_eq!(dao.save(&mut props, a).err(), Some(SaveAgreementError::ProposalCountered(d1)));
}

#[test]
fn other_reactions() {
    let p = || AgreementProposal { id: "d".to_string(), offer: wire("O", "") };
    assert!(matches!(
        proposal_reaction("s".to_string(), p(), Ok(ProposalResponse::IgnoreProposal)),
        ProposalReaction::Ignore { proposal_id } if proposal_id == "d"
    ));
    assert!(matches!(
        proposal_reaction("s".to_string(), p(), Ok(ProposalResponse::RejectProposal)),
        ProposalReaction::Reject { subscription_id, proposal_id } if subscription_id == "s" && proposal_id == "d"
    ));
    assert!(matches!(
        proposal_reaction("s".to_string(), p(), Err(NegotiatorError::NoOffer)),
        ProposalReaction::NegotiatorFailed { proposal_id, error: NegotiatorError::NoOffer } if proposal_id == "d"
    ));
    assert!(matches!(
        agreement_reaction("A".to_string(), Ok(AgreementResponse::RejectAgreement)),
        AgreementReaction::Reject { agreement_id } if agreement_id == "A"
    ));
    assert!(matches!(
        agreement_reaction("A".to_string(), Err(NegotiatorError::Failed("x".to_string()))),
        AgreementReaction::NegotiatorFailed { agreement_id, .. } if agreement_id == "A"
    ));
}
