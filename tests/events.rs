use ya_market::events::{DemandState, EventsDao, MarketEventKind, TakeEventsError};
use ya_market::ids::OwnerType;
use ya_market::proposal_store::ProposalStore;

fn queue_with_five(sub: u64) -> EventsDao {
    let mut q = EventsDao::new();
    assert!(q.subscribe(sub, 1000));
    for ts in 1..=5i64 {
        q.enqueue(sub, OwnerType::Requestor, MarketEventKind::ProposalReceived, ts as u64, ts).unwrap();
    }
    q
}

#[test]
fn event_queue_drain() {
    let sub = 7;
    let mut q = queue_with_five(sub);
    let first: Vec<u64> = q.take_requestor_events(&sub, 3, 10).unwrap().iter().map(|e| e.ref_id).collect();
    assert_eq!(first, vec![1, 2, 3]);
    assert_eq!(q.queued().len(), 2);
    let second: Vec<u64> = q.take_requestor_events(&sub, 10, 10).unwrap().iter().map(|e| e.ref_id).collect();
    assert_eq!(second, vec![4, 5]);
    let mut q = queue_with_five(sub);
    q.take_requestor_events(&sub, 3, 10).unwrap();
    q.remove_requestor_events(&sub);
    assert_eq!(q.queued().len(), 0);
}

#[test]
fn second_take_is_empty_after_full_drain() {
    let sub = 1;
    let mut q = queue_with_five(sub);
    assert_eq!(q.take_requestor_events(&sub, 5, 0).unwrap().len(), 5);
    assert!(q.take_requestor_events(&sub, 5, 0).unwrap().is_empty());
    let mut q = queue_with_five(sub);
    assert_eq!(q.take_requestor_events(&sub, 4, 0).unwrap().len(), 4);
    assert_eq!(q.take_requestor_events(&sub, 4, 0).unwrap().len(), 1);
}

#[test]
fn take_orders_by_timestamp() {
    let sub = 2;
    let mut q = EventsDao::new();
    q.subscribe(sub, 100);
    for ts in [5i64, 1, 4, 2, 3] {
        q.enqueue(sub, OwnerType::Provider, MarketEventKind::ProposalReceived, ts as u64, ts).unwrap();
    }
    let got: Vec<i64> = q.take_requestor_events(&sub, 10, 0).unwrap().iter().map(|e| e.timestamp).collect();
    assert_eq!(got, vec![1, 2, 3, 4, 5]);
}

#[test]
fn take_leaves_other_subscriptions() {
    let mut q = EventsDao::new();
    q.subscribe(1, 100);
    q.subscribe(2, 100);
    q.enqueue(1, OwnerType::Requestor, MarketEventKind::ProposalReceived, 10, 1).unwrap();
    q.enqueue(2, OwnerType::Requestor, MarketEventKind::AgreementReceived, 20, 2).unwrap();
    q.enqueue(1, OwnerType::Requestor, MarketEventKind::ProposalRejected, 11, 3).unwrap();
    let got = q.take_requestor_events(&1, 10, 0).unwrap();
    assert_eq!(got.len(), 2);
    assert_eq!(q.queued().len(), 1);
    assert_eq!(q.queued()[0].subscription_id, 2);
    q.remove_requestor_events(&1);
    assert_eq!(q.queued().len(), 1);
}

#[test]
fn take_checks_subscription_first() {
    let mut q = queue_with_five(3);
    assert_eq!(q.take_requestor_events(&4, 3, 0), Err(TakeEventsError::SubscriptionNotFound(4)));
    assert_eq!(q.take_requestor_events(&3, 3, 1001), Err(TakeEventsError::SubscriptionExpired(3)));
    assert_eq!(q.queued().len(), 5);
    assert_eq!(q.demand_status(3, 1000), DemandState::Active);
    assert_eq!(q.demand_status(3, 1001), DemandState::Expired);
    assert_eq!(q.demand_status(9, 0), DemandState::NotFound);
    assert!(!q.subscribe(3, 5));
}

#[test]
fn negative_max_takes_nothing() {
    let mut q = queue_with_five(3);
    assert!(q.take_requestor_events(&3, -1, 0).unwrap().is_empty());
    assert_eq!(q.queued().len(), 5);
}

#[test]
fn event_ids_are_monotonic() {
    let mut q = EventsDao::new();
    let a = q.enqueue(1, OwnerType::Requestor, MarketEventKind::PropertyQuery, 0, 9).unwrap();
    let b = q.enqueue(1, OwnerType::Requestor, MarketEventKind::PropertyQuery, 0, 1).unwrap();
    assert!(a < b);
}

#[test]
fn proposal_event_refers_to_proposal() {
    let mut s = ProposalStore::new();
    let id = s.save_initial(OwnerType::Requestor, 4, "d".to_string(), 42, 100).unwrap();
    let row = s.get(id).unwrap();
    let mut q = EventsDao::new();
    q.subscribe(4, 100);
    q.add_proposal_event(&row, OwnerType::Provider).unwrap();
    let got = q.take_requestor_events(&4, 1, 0).unwrap();
    assert_eq!(got.len(), 1);
    assert_eq!(got[0].kind, MarketEventKind::ProposalReceived);
    assert_eq!(got[0].ref_id, id.key);
    assert_eq!(got[0].timestamp, 42);
    assert_eq!(got[0].owner, OwnerType::Provider);
}

#[test]
fn unsubscribe_removes_subscription_and_events() {
    let mut q = queue_with_five(5);
    q.subscribe(6, 100);
    q.enqueue(6, OwnerType::Requestor, MarketEventKind::ProposalReceived, 1, 1).unwrap();
    assert!(q.unsubscribe(5));
    assert_eq!(q.queued().len(), 1);
    assert_eq!(q.demand_status(5, 0), DemandState::NotFound);
    assert_eq!(q.demand_status(6, 0), DemandState::Active);
    assert_eq!(q.take_requestor_events(&5, 1, 0), Err(TakeEventsError::SubscriptionNotFound(5)));
    assert!(!q.unsubscribe(5));
}

#[test]
fn exhausted_ids_refuse_enqueue() {
    let mut q = EventsDao::resume(u64::MAX);
    assert_eq!(
        q.enqueue(1, OwnerType::Requestor, MarketEventKind::ProposalReceived, 0, 0),
        Err(ya_market::events::EnqueueError::IdsExhausted)
    );
    assert!(q.queued().is_empty());
}

#[test]
fn take_after_new_enqueue_returns_new_events() {
    let sub = 8;
    let mut q = queue_with_five(sub);
    assert_eq!(q.take_requestor_events(&sub, 5, 0).unwrap().len(), 5);
    let id = q.enqueue(sub, OwnerType::Requestor, MarketEventKind::ProposalReceived, 6, 6).unwrap();
    let got = q.take_requestor_events(&sub, 5, 0).unwrap();
    assert_eq!(got.len(), 1);
    assert_eq!(got[0].id, id);
    assert!(q.take_requestor_events(&sub, 5, 0).unwrap().is_empty());
}

#[test]
fn resumed_queue_continues_ids() {
    let mut q = EventsDao::resume(41);
    let id = q.enqueue(1, OwnerType::Requestor, MarketEventKind::ProposalReceived, 0, 0).unwrap();
    assert_eq!(id, 41);
}
