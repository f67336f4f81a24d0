use vstd::prelude::*;

use crate::ids::{OwnerType, SubscriptionId};
use crate::proposal_store::ProposalRow;

verus! {

#[derive(PartialEq, Eq, Structural, Clone, Copy, Debug)]
pub enum MarketEventKind {
    ProposalReceived,
    ProposalRejected,
    PropertyQuery,
    AgreementReceived,
    AgreementTerminated,
}

/// A pending notification for one subscription; `ref_id` is the key of the
/// proposal or agreement it speaks of.
#[derive(PartialEq, Eq, Structural, Clone, Copy, Debug)]
pub struct MarketEvent {
    pub id: u64,
    pub subscription_id: SubscriptionId,
    pub owner: OwnerType,
    pub kind: MarketEventKind,
    pub ref_id: u64,
    pub timestamp: i64,
}

#[derive(PartialEq, Eq, Structural, Clone, Copy, Debug)]
pub struct SubscriptionRow {
    pub id: SubscriptionId,
    pub expiry_ts: i64,
}

#[derive(PartialEq, Eq, Structural, Clone, Copy, Debug)]
pub enum DemandState {
    Active,
    Expired,
    NotFound,
}

#[derive(PartialEq, Eq, Structural, Clone, Copy, Debug)]
pub enum TakeEventsError {
    SubscriptionNotFound(SubscriptionId),
    SubscriptionExpired(SubscriptionId),
}

#[derive(PartialEq, Eq, Structural, Clone, Copy, Debug)]
pub enum EnqueueError {
    IdsExhausted,
}

/// The queue of pending events of all subscriptions, kept in timestamp order,
/// and the subscriptions it serves.
pub struct EventsDao {
    events: Vec<MarketEvent>,
    subscriptions: Vec<SubscriptionRow>,
    next_id: u64,
}

/// The events of `sub`, in queue order.
pub open spec fn selected(s: Seq<MarketEvent>, sub: SubscriptionId) -> Seq<MarketEvent>
    decreases s.len(),
{
    if s.len() == 0 {
        Seq::empty()
    } else if s.last().subscription_id == sub {
        selected(s.drop_last(), sub).push(s.last())
    } else {
        selected(s.drop_last(), sub)
    }
}

/// The first `max` events of `sub`, or all of them where there are fewer.
pub open spec fn taken(s: Seq<MarketEvent>, sub: SubscriptionId, max: nat) -> Seq<MarketEvent> {
    if selected(s, sub).len() <= max {
        selected(s, sub)
    } else {
        selected(s, sub).take(max as int)
    }
}

/// The queue once the first `max` events of `sub` are gone.
pub open spec fn remaining(s: Seq<MarketEvent>, sub: SubscriptionId, max: nat) -> Seq<MarketEvent>
    decreases s.len(),
{
    if s.len() == 0 {
        Seq::empty()
    } else if s.last().subscription_id == sub && selected(s.drop_last(), sub).len() < max {
        remaining(s.drop_last(), sub, max)
    } else {
        remaining(s.drop_last(), sub, max).push(s.last())
    }
}

pub open spec fn sorted_by_ts(s: Seq<MarketEvent>) -> bool {
    forall|i: int, j: int| 0 <= i < j < s.len() ==> s[i].timestamp <= s[j].timestamp
}

/// The state of subscription `id` at time `now`; subscription ids are unique.
pub open spec fn demand_state(subs: Seq<SubscriptionRow>, id: SubscriptionId, now: i64) -> DemandState {
    if exists|i: int| 0 <= i < subs.len() && subs[i].id == id {
        let i = choose|i: int| 0 <= i < subs.len() && subs[i].id == id;
        if subs[i].expiry_ts < now {
            DemandState::Expired
        } else {
            DemandState::Active
        }
    } else {
        DemandState::NotFound
    }
}

pub open spec fn subs_unique(subs: Seq<SubscriptionRow>) -> bool {
    forall|i: int, j: int| 0 <= i < subs.len() && 0 <= j < subs.len() && i != j ==> subs[i].id != subs[j].id
}

/// `t` is `s` with `e` placed after every event not later than it, and
/// before every later one.
pub open spec fn inserted_at(s: Seq<MarketEvent>, e: MarketEvent, t: Seq<MarketEvent>, j: int) -> bool {
    &&& 0 <= j <= s.len()
    &&& t == s.insert(j, e)
    &&& forall|k: int| 0 <= k < j ==> #[trigger] s[k].timestamp <= e.timestamp
    &&& forall|k: int| j <= k < s.len() ==> #[trigger] s[k].timestamp > e.timestamp
}

proof fn lemma_selected_len(s: Seq<MarketEvent>, sub: SubscriptionId)
    ensures
        selected(s, sub).len() <= s.len(),
    decreases s.len(),
{
    if s.len() > 0 {
        lemma_selected_len(s.drop_last(), sub);
    }
}

/// Taking `max` events of `sub` leaves exactly the later events of `sub`.
pub proof fn lemma_remaining_selected(s: Seq<MarketEvent>, sub: SubscriptionId, max: nat)
    ensures
        selected(remaining(s, sub, max), sub) == selected(s, sub).skip(
            if selected(s, sub).len() <= max { selected(s, sub).len() as int } else { max as int },
        ),
    decreases s.len(),
{
    if s.len() > 0 {
        let p = s.drop_last();
        lemma_remaining_selected(p, sub, max);
        let e = s.last();
        if e.subscription_id == sub {
            if selected(p, sub).len() < max {
                assert(selected(s, sub).skip(selected(s, sub).len() as int) =~= Seq::empty());
                assert(selected(p, sub).skip(selected(p, sub).len() as int) =~= Seq::empty());
            } else {
                assert(remaining(s, sub, max).drop_last() == remaining(p, sub, max));
                assert(selected(p, sub).push(e).skip(max as int) =~= selected(p, sub).skip(max as int).push(e));
            }
        } else {
            assert(remaining(s, sub, max).drop_last() == remaining(p, sub, max));
        }
    }
}

/// Taking events of one subscription leaves the others' events as they were.
pub proof fn lemma_remaining_other(s: Seq<MarketEvent>, sub: SubscriptionId, other: SubscriptionId, max: nat)
    requires
        other != sub,
    ensures
        selected(remaining(s, sub, max), other) == selected(s, other),
    decreases s.len(),
{
    if s.len() > 0 {
        let p = s.drop_last();
        lemma_remaining_other(p, sub, other, max);
        if !(s.last().subscription_id == sub && selected(p, sub).len() < max) {
            assert(remaining(s, sub, max).drop_last() == remaining(p, sub, max));
        }
    }
}

/// A second take, with no enqueue in between, returns nothing exactly when
/// the first one took every event of the subscription.
pub proof fn lemma_second_take_empty(s: Seq<MarketEvent>, sub: SubscriptionId, n: nat, m: nat)
    requires
        m > 0,
    ensures
        taken(remaining(s, sub, n), sub, m).len() == 0 <==> selected(s, sub).len() <= n,
{
    lemma_remaining_selected(s, sub, n);
}

impl EventsDao {
    /// The queued events, in queue order.
    pub closed spec fn queue_view(&self) -> Seq<MarketEvent> {
        self.events@
    }

    /// The registered subscriptions.
    pub closed spec fn subs_view(&self) -> Seq<SubscriptionRow> {
        self.subscriptions@
    }

    /// The id that the next queued event gets.
    pub closed spec fn next_event_id(&self) -> u64 {
        self.next_id
    }

    pub open spec fn wf(&self) -> bool {
        &&& sorted_by_ts(self.queue_view())
        &&& subs_unique(self.subs_view())
        &&& forall|i: int| 0 <= i < self.queue_view().len() ==> (#[trigger] self.queue_view()[i]).id < self.next_event_id()
    }

    pub fn new() -> (r: EventsDao)
        ensures
            r.wf(),
            r.queue_view().len() == 0,
            r.subs_view().len() == 0,
    {
        EventsDao { events: Vec::new(), subscriptions: Vec::new(), next_id: 0 }
    }

    /// An empty queue whose event ids continue from `next_id`, as after a
    /// restart.
    pub fn resume(next_id: u64) -> (r: EventsDao)
        ensures
            r.wf(),
            r.queue_view().len() == 0,
            r.subs_view().len() == 0,
            r.next_event_id() == next_id,
    {
        EventsDao { events: Vec::new(), subscriptions: Vec::new(), next_id }
    }

    /// The queued events, in queue order.
    pub fn queued(&self) -> (r: &Vec<MarketEvent>)
        ensures
            r@ == self.queue_view(),
    {
        &self.events
    }

    fn find_subscription(&self, id: SubscriptionId) -> (r: Option<usize>)
        requires
            self.wf(),
        ensures
            r is None ==> forall|i: int| 0 <= i < self.subscriptions@.len() ==> self.subscriptions@[i].id != id,
            r is Some ==> r->Some_0 < self.subscriptions@.len() && self.subscriptions@[r->Some_0 as int].id == id,
    {
        let mut i: usize = 0;
        while i < self.subscriptions.len()
            invariant
                i <= self.subscriptions@.len(),
                forall|k: int| 0 <= k < i ==> self.subscriptions@[k].id != id,
            decreases self.subscriptions@.len() - i,
        {
            if self.subscriptions[i].id == id {
                return Some(i);
            }
            i += 1;
        }
        None
    }

    /// Registers subscription `id`, valid until `expiry_ts`; `false`, with
    /// nothing changed, where it is already registered.
    pub fn subscribe(&mut self, id: SubscriptionId, expiry_ts: i64) -> (r: bool)
        requires
            old(self).wf(),
        ensures
            final(self).wf(),
            final(self).queue_view() == old(self).queue_view(),
            final(self).next_event_id() == old(self).next_event_id(),
            r == (demand_state(old(self).subs_view(), id, expiry_ts) is NotFound),
            r ==> final(self).subs_view() == old(self).subs_view().push(SubscriptionRow { id, expiry_ts }),
            !r ==> final(self).subs_view() == old(self).subs_view(),
    {
        match self.find_subscription(id) {
            Some(_) => false,
            None => {
                self.subscriptions.push(SubscriptionRow { id, expiry_ts });
                true
            },
        }
    }

    /// Whether `id` is registered and, if so, whether it has expired at `now`.
    pub fn demand_status(&self, id: SubscriptionId, now: i64) -> (r: DemandState)
        requires
            self.wf(),
        ensures
            r == demand_state(self.subs_view(), id, now),
    {
        match self.find_subscription(id) {
            None => DemandState::NotFound,
            Some(i) => {
                proof {
                    let c = choose|c: int| 0 <= c < self.subscriptions@.len() && self.subscriptions@[c].id == id;
                    assert(c == i);
                }
                if self.subscriptions[i].expiry_ts < now {
                    DemandState::Expired
                } else {
                    DemandState::Active
                }
            },
        }
    }

    /// Splits off the first `limit` events of `sub`, keeping the rest queued.
    fn split_off(&mut self, sub: SubscriptionId, limit: usize) -> (r: Vec<MarketEvent>)
        requires
            old(self).wf(),
        ensures
            final(self).wf(),
            final(self).subs_view() == old(self).subs_view(),
            final(self).next_event_id() == old(self).next_event_id(),
            r@ == taken(old(self).queue_view(), sub, limit as nat),
            final(self).queue_view() == remaining(old(self).queue_view(), sub, limit as nat),
            sorted_by_ts(r@),
    {
        let ghost s = self.events@;
        let mut out: Vec<MarketEvent> = Vec::new();
        let mut kept: Vec<MarketEvent> = Vec::new();
        let mut i: usize = 0;
        while i < self.events.len()
            invariant
                self.events@ == s,
                sorted_by_ts(s),
                i <= s.len(),
                out@ == taken(s.subrange(0, i as int), sub, limit as nat),
                kept@ == remaining(s.subrange(0, i as int), sub, limit as nat),
                sorted_by_ts(out@),
                sorted_by_ts(kept@),
                self.next_id == old(self).next_event_id(),
                self.subscriptions@ == old(self).subs_view(),
                forall|k: int| 0 <= k < s.len() ==> (#[trigger] s[k]).id < self.next_id,
                forall|a: int| 0 <= a < kept@.len() ==> (#[trigger] kept@[a]).id < self.next_id,
                forall|a: int, b: int| 0 <= a < out@.len() && i <= b < s.len() ==> out@[a].timestamp <= s[b].timestamp,
                forall|a: int, b: int| 0 <= a < kept@.len() && i <= b < s.len() ==> kept@[a].timestamp <= s[b].timestamp,
            decreases s.len() - i,
        {
            let e = self.events[i];
            let ghost p = s.subrange(0, i as int);
            let ghost q = s.subrange(0, i as int + 1);
            proof {
                assert(q.drop_last() == p);
                assert(q.last() == e);
            }
            if e.subscription_id == sub && out.len() < limit {
                proof {
                    assert(selected(p, sub).len() < limit);
                    assert(selected(q, sub) == selected(p, sub).push(e));
                }
                out.push(e);
            } else {
                proof {
                    if e.subscription_id == sub {
                        assert(selected(p, sub).len() >= limit);
                        assert(selected(q, sub) == selected(p, sub).push(e));
                        assert(selected(q, sub).take(limit as int) =~= taken(p, sub, limit as nat));
                    }
                }
                kept.push(e);
            }
            i += 1;
        }
        proof {
            assert(s.subrange(0, s.len() as int) == s);
        }
        self.events = kept;
        out
    }

    /// Takes up to `max_events` events of `subscription_id`, earliest first,
    /// and removes them from the queue. Fails, with the queue unchanged, where
    /// the subscription is unknown or has expired at `now`. A negative
    /// `max_events` takes nothing.
    pub fn take_requestor_events(
        &mut self,
        subscription_id: &SubscriptionId,
        max_events: i32,
        now: i64,
    ) -> (r: Result<Vec<MarketEvent>, TakeEventsError>)
        requires
            old(self).wf(),
        ensures
            final(self).wf(),
            final(self).subs_view() == old(self).subs_view(),
            demand_state(old(self).subs_view(), *subscription_id, now) is NotFound <==> r
                == Err::<Vec<MarketEvent>, TakeEventsError>(TakeEventsError::SubscriptionNotFound(*subscription_id)),
            demand_state(old(self).subs_view(), *subscription_id, now) is Expired <==> r
                == Err::<Vec<MarketEvent>, TakeEventsError>(TakeEventsError::SubscriptionExpired(*subscription_id)),
            demand_state(old(self).subs_view(), *subscription_id, now) is Active <==> r is Ok,
            r is Err ==> final(self).queue_view() == old(self).queue_view(),
            r is Ok ==> {
                let max: nat = if max_events < 0 { 0 } else { max_events as nat };
                &&& r->Ok_0@ == taken(old(self).queue_view(), *subscription_id, max)
                &&& final(self).queue_view() == remaining(old(self).queue_view(), *subscription_id, max)
                &&& sorted_by_ts(r->Ok_0@)
            },
    {
        let sub = *subscription_id;
        match self.demand_status(sub, now) {
            DemandState::NotFound => return Err(TakeEventsError::SubscriptionNotFound(sub)),
            DemandState::Expired => return Err(TakeEventsError::SubscriptionExpired(sub)),
            DemandState::Active => {},
        }
        let limit: usize = if max_events < 0 { 0 } else { max_events as usize };
        Ok(self.split_off(sub, limit))
    }

    /// Drops every queued event of `subscription_id`.
    pub fn remove_requestor_events(&mut self, subscription_id: &SubscriptionId)
        requires
            old(self).wf(),
        ensures
            final(self).wf(),
            final(self).subs_view() == old(self).subs_view(),
            final(self).queue_view() == remaining(old(self).queue_view(), *subscription_id, old(self).queue_view().len()),
            selected(final(self).queue_view(), *subscription_id).len() == 0,
    {
        let ghost s = self.events@;
        let n = self.events.len();
        let _ = self.split_off(*subscription_id, n);
        proof {
            lemma_selected_len(s, *subscription_id);
            lemma_remaining_selected(s, *subscription_id, n as nat);
        }
    }

    /// Queues `event` at its timestamp's place, after every event not later
    /// than it, under the next free id.
    pub fn enqueue(
        &mut self,
        subscription_id: SubscriptionId,
        owner: OwnerType,
        kind: MarketEventKind,
        ref_id: u64,
        timestamp: i64,
    ) -> (r: Result<u64, EnqueueError>)
        requires
            old(self).wf(),
        ensures
            final(self).wf(),
            final(self).subs_view() == old(self).subs_view(),
            r is Err <==> old(self).next_event_id() == u64::MAX,
            r is Err ==> *final(self) == *old(self),
            r is Ok ==> {
                let e = MarketEvent { id: old(self).next_event_id(), subscription_id, owner, kind, ref_id, timestamp };
                &&& r->Ok_0 == old(self).next_event_id()
                &&& final(self).next_event_id() == old(self).next_event_id() + 1
                &&& forall|i: int| 0 <= i < old(self).queue_view().len() ==> #[trigger] old(self).queue_view()[i].id < r->Ok_0
                &&& exists|j: int| inserted_at(old(self).queue_view(), e, final(self).queue_view(), j)
            },
    {
        if self.next_id == u64::MAX {
            return Err(EnqueueError::IdsExhausted);
        }
        let id = self.next_id;
        let e = MarketEvent { id, subscription_id, owner, kind, ref_id, timestamp };
        let ghost s = self.events@;
        let mut j: usize = 0;
        while j < self.events.len() && self.events[j].timestamp <= timestamp
            invariant
                self.events@ == s,
                j <= s.len(),
                forall|k: int| 0 <= k < j ==> #[trigger] s[k].timestamp <= timestamp,
            decreases s.len() - j,
        {
            j += 1;
        }
        proof {
            assert forall|k: int| j <= k < s.len() implies #[trigger] s[k].timestamp > timestamp by {
                assert(s[j as int].timestamp > timestamp);
            }
        }
        self.events.insert(j, e);
        proof {
            let t = self.events@;
            assert(inserted_at(s, e, t, j as int));
            assert forall|a: int, b: int| 0 <= a < b < t.len() implies t[a].timestamp <= t[b].timestamp by {
                if b < j {
                } else if b == j {
                    assert(s[a].timestamp <= timestamp);
                } else if a < j {
                    assert(s[a].timestamp <= timestamp);
                    assert(s[b - 1].timestamp > timestamp);
                } else if a == j {
                    assert(s[b - 1].timestamp > timestamp);
                } else {
                }
            }
        }
        proof {
            assert forall|i: int| 0 <= i < s.len() implies #[trigger] s[i].id < id by {
                assert(s[i] == old(self).events@[i]);
            }
        }
        self.next_id = id + 1;
        assert(inserted_at(old(self).queue_view(), e, self.queue_view(), j as int));
        Ok(id)
    }

    /// Queues the arrival of `proposal` for its subscription's `owner` side.
    pub fn add_proposal_event(&mut self, proposal: &ProposalRow, owner: OwnerType) -> (r: Result<u64, EnqueueError>)
        requires
            old(self).wf(),
        ensures
            final(self).wf(),
            final(self).subs_view() == old(self).subs_view(),
            r is Err <==> old(self).next_event_id() == u64::MAX,
            r is Err ==> *final(self) == *old(self),
            r is Ok ==> {
                let e = MarketEvent {
                    id: old(self).next_event_id(),
                    subscription_id: proposal.subscription_id,
                    owner,
                    kind: MarketEventKind::ProposalReceived,
                    ref_id: proposal.id.key,
                    timestamp: proposal.created_ts,
                };
                &&& r->Ok_0 == old(self).next_event_id()
                &&& final(self).next_event_id() == old(self).next_event_id() + 1
                &&& forall|i: int| 0 <= i < old(self).queue_view().len() ==> #[trigger] old(self).queue_view()[i].id < r->Ok_0
                &&& exists|j: int| inserted_at(old(self).queue_view(), e, final(self).queue_view(), j)
            },
    {
        self.enqueue(
            proposal.subscription_id,
            owner,
            MarketEventKind::ProposalReceived,
            proposal.id.key,
            proposal.created_ts,
        )
    }

    /// Removes subscription `id` and every event queued for it; `false`,
    /// with nothing changed, where it is not registered.
    pub fn unsubscribe(&mut self, id: SubscriptionId) -> (r: bool)
        requires
            old(self).wf(),
        ensures
            final(self).wf(),
            r == !(demand_state(old(self).subs_view(), id, 0) is NotFound),
            !r ==> *final(self) == *old(self),
            r ==> final(self).queue_view() == remaining(old(self).queue_view(), id, old(self).queue_view().len()),
            r ==> forall|i: int| 0 <= i < final(self).subs_view().len() ==> final(self).subs_view()[i].id != id,
            r ==> forall|i: int|
                0 <= i < old(self).subs_view().len() && old(self).subs_view()[i].id != id ==> final(self).subs_view().contains(old(self).subs_view()[i]),
    {
        let k = match self.find_subscription(id) {
            None => return false,
            Some(k) => k,
        };
        let ghost subs = self.subscriptions@;
        let _ = self.subscriptions.remove(k);
        proof {
            let n = self.subscriptions@;
            assert(n =~= subs.remove(k as int));
            assert forall|i: int| 0 <= i < n.len() implies n[i].id != id by {
                if i < k {
                    assert(n[i] == subs[i]);
                } else {
                    assert(n[i] == subs[i + 1]);
                }
            }
            assert forall|i: int| 0 <= i < subs.len() && subs[i].id != id implies n.contains(subs[i]) by {
                if i < k {
                    assert(n[i] == subs[i]);
                } else {
                    assert(n[i - 1] == subs[i]);
                }
            }
            assert forall|i: int, j: int| 0 <= i < n.len() && 0 <= j < n.len() && i != j implies n[i].id != n[j].id by {
                let a = if i < k { i } else { i + 1 };
                let b = if j < k { j } else { j + 1 };
                assert(n[i] == subs[a]);
                assert(n[j] == subs[b]);
            }
        }
        self.remove_requestor_events(&id);
        true
    }
}

} // verus!
