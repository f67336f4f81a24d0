use vstd::prelude::*;

use crate::ids::{swapped_agreement, AgreementId, NodeId, OwnerType, ProposalId};
use crate::proposal_store::{contains, has_counter_spec, with_accepted, ProposalStore};
use crate::state::{check_transition, transition_allowed, AgreementState, StateError};

verus! {

/// Days an agreement is kept after its `valid_to` when nothing is configured.
pub const AGREEMENT_STORE_DAYS_DEFAULT: u64 = 90;

/// The shortest retention that a configuration may ask for.
pub const AGREEMENT_STORE_DAYS_MIN: u64 = 30;

pub const SECONDS_PER_DAY: i128 = 86400;

/// A deal bound between a provider and a requestor on an accepted proposal.
/// Timestamps are seconds.
#[derive(Debug)]
pub struct Agreement {
    pub id: AgreementId,
    pub offer_proposal_id: ProposalId,
    pub provider_id: NodeId,
    pub requestor_id: NodeId,
    pub valid_to: i64,
    pub state: AgreementState,
    pub session_id: Option<String>,
    pub created_ts: i64,
    pub approved_ts: Option<i64>,
    pub terminated_ts: Option<i64>,
}

#[derive(PartialEq, Eq, Structural, Clone, Copy, Debug)]
pub enum AgreementEventKind {
    Approved,
    Terminated,
    Rejected,
    Cancelled,
}

/// An entry of the append-only agreement log.
#[derive(Debug)]
pub struct AgreementEvent {
    pub agreement_id: AgreementId,
    pub kind: AgreementEventKind,
    pub reason: Option<String>,
    pub terminator: OwnerType,
    pub timestamp: i64,
}

#[derive(PartialEq, Eq, Structural, Clone, Copy, Debug)]
pub enum SaveAgreementError {
    ProposalCountered(ProposalId),
    Exists(AgreementId, ProposalId),
    ProposalNotFound(ProposalId),
    SameNode(NodeId),
    NotInitialState(AgreementState),
    DuplicateId(AgreementId),
}

/// Durable agreements and their event log.
pub struct AgreementDao {
    agreements: Vec<Agreement>,
    events: Vec<AgreementEvent>,
}

pub open spec fn session_view(s: Option<String>) -> Option<Seq<char>> {
    match s {
        Some(s) => Some(s@),
        None => None,
    }
}

/// `a` and `b` hold the same agreement; sessions are compared by content.
pub open spec fn same_agreement(a: Agreement, b: Agreement) -> bool {
    &&& a.id == b.id
    &&& a.offer_proposal_id == b.offer_proposal_id
    &&& a.provider_id == b.provider_id
    &&& a.requestor_id == b.requestor_id
    &&& a.valid_to == b.valid_to
    &&& a.state == b.state
    &&& session_view(a.session_id) == session_view(b.session_id)
    &&& a.created_ts == b.created_ts
    &&& a.approved_ts == b.approved_ts
    &&& a.terminated_ts == b.terminated_ts
}

/// The logged events of agreement `id` as kind and timestamp, oldest first.
pub open spec fn log_of(ev: Seq<AgreementEvent>, id: AgreementId) -> Seq<(AgreementEventKind, i64)>
    decreases ev.len(),
{
    if ev.len() == 0 {
        Seq::empty()
    } else if ev.last().agreement_id == id {
        log_of(ev.drop_last(), id).push((ev.last().kind, ev.last().timestamp))
    } else {
        log_of(ev.drop_last(), id)
    }
}

/// What the log holds for agreement `a`: nothing before approval; then the
/// `Approved` event at its approval time; once terminated, a `Terminated`
/// event after it, stamped no earlier.
pub open spec fn log_fits(log: Seq<(AgreementEventKind, i64)>, a: Agreement) -> bool {
    match a.state {
        AgreementState::Approved => a.approved_ts is Some && log == seq![
            (AgreementEventKind::Approved, a.approved_ts->Some_0),
        ],
        AgreementState::Terminated => {
            &&& a.approved_ts is Some
            &&& log.len() == 2
            &&& log[0] == (AgreementEventKind::Approved, a.approved_ts->Some_0)
            &&& log[1].0 == AgreementEventKind::Terminated
            &&& log[0].1 <= log[1].1
        },
        _ => log.len() == 0,
    }
}

/// The time a termination at `now` is recorded at: never before approval.
pub open spec fn termination_time(a: Agreement, now: i64) -> i64 {
    match a.approved_ts {
        Some(t) => if now < t { t } else { now },
        None => now,
    }
}

pub open spec fn has_agreement(ag: Seq<Agreement>, id: AgreementId) -> bool {
    exists|i: int| 0 <= i < ag.len() && ag[i].id == id
}

pub open spec fn ids_distinct(ag: Seq<Agreement>) -> bool {
    forall|i: int, j: int| 0 <= i < ag.len() && 0 <= j < ag.len() && i != j ==> ag[i].id != ag[j].id
}

pub open spec fn offers_distinct(ag: Seq<Agreement>) -> bool {
    forall|i: int, j: int|
        0 <= i < ag.len() && 0 <= j < ag.len() && i != j ==> ag[i].offer_proposal_id != ag[j].offer_proposal_id
}

/// The store's invariants: ids and anchoring proposals are unique, the two
/// parties differ, and the log of each agreement is what its state implies.
pub open spec fn store_wf(ag: Seq<Agreement>, ev: Seq<AgreementEvent>) -> bool {
    &&& ids_distinct(ag)
    &&& offers_distinct(ag)
    &&& forall|i: int| 0 <= i < ag.len() ==> (#[trigger] ag[i]).provider_id != ag[i].requestor_id
    &&& forall|i: int| 0 <= i < ag.len() ==> log_fits(log_of(ev, (#[trigger] ag[i]).id), ag[i])
    &&& forall|id: AgreementId| !has_agreement(ag, id) ==> #[trigger] log_of(ev, id) == Seq::<(AgreementEventKind, i64)>::empty()
}

/// Outcome of `save` on a given store, `None` meaning success.
pub open spec fn save_error(
    ag: Seq<Agreement>,
    proposals: Seq<crate::proposal_store::ProposalRow>,
    a: Agreement,
) -> Option<SaveAgreementError> {
    let pid = a.offer_proposal_id;
    if has_counter_spec(proposals, pid) {
        Some(SaveAgreementError::ProposalCountered(pid))
    } else if exists|i: int| 0 <= i < ag.len() && ag[i].offer_proposal_id == pid {
        let i = choose|i: int| 0 <= i < ag.len() && ag[i].offer_proposal_id == pid;
        Some(SaveAgreementError::Exists(ag[i].id, pid))
    } else if !contains(proposals, pid) {
        Some(SaveAgreementError::ProposalNotFound(pid))
    } else if a.provider_id == a.requestor_id {
        Some(SaveAgreementError::SameNode(a.provider_id))
    } else if a.state != AgreementState::Proposal {
        Some(SaveAgreementError::NotInitialState(a.state))
    } else if has_agreement(ag, a.id) {
        Some(SaveAgreementError::DuplicateId(a.id))
    } else {
        None
    }
}

/// `a` once it has moved to `to`, with `session` written where one is given.
pub open spec fn moved(a: Agreement, to: AgreementState, session: Option<String>) -> Agreement {
    Agreement {
        state: to,
        session_id: if session is Some { session } else { a.session_id },
        ..a
    }
}

/// `a` as a read at `now` leaves it: expired where `valid_to` has passed and
/// its state admits expiry.
pub open spec fn expired_at(a: Agreement, now: i64) -> Agreement {
    if a.valid_to < now && transition_allowed(a.state, AgreementState::Expired) {
        Agreement { state: AgreementState::Expired, ..a }
    } else {
        a
    }
}

/// `a` is agreement `id` and, where `node` is given, `node` is the party on
/// the side that `id` belongs to.
pub open spec fn owner_match(a: Agreement, id: AgreementId, node: Option<NodeId>) -> bool {
    a.id == id && match node {
        None => true,
        Some(n) => match id.owner {
            OwnerType::Provider => a.provider_id == n,
            OwnerType::Requestor => a.requestor_id == n,
        },
    }
}

/// `a` is agreement `id` or its mirror, and `node` is one of its parties.
pub open spec fn node_match(a: Agreement, id: AgreementId, node: NodeId) -> bool {
    (a.id == id || a.id == swapped_agreement(id)) && (a.provider_id == node || a.requestor_id == node)
}

/// Whether agreement `a` is past the retention horizon `cutoff`.
pub open spec fn stale(a: Agreement, cutoff: int) -> bool {
    a.valid_to < cutoff
}

pub open spec fn expired_before(ag: Seq<Agreement>, id: AgreementId, cutoff: int) -> bool {
    exists|i: int| 0 <= i < ag.len() && ag[i].id == id && stale(ag[i], cutoff)
}

/// The agreements that a sweep at `cutoff` keeps, in order.
pub open spec fn agreements_kept(ag: Seq<Agreement>, cutoff: int) -> Seq<Agreement>
    decreases ag.len(),
{
    if ag.len() == 0 {
        Seq::empty()
    } else if stale(ag.last(), cutoff) {
        agreements_kept(ag.drop_last(), cutoff)
    } else {
        agreements_kept(ag.drop_last(), cutoff).push(ag.last())
    }
}

/// The log entries that a sweep at `cutoff` keeps, in order.
pub open spec fn events_kept(ev: Seq<AgreementEvent>, ag: Seq<Agreement>, cutoff: int) -> Seq<AgreementEvent>
    decreases ev.len(),
{
    if ev.len() == 0 {
        Seq::empty()
    } else if expired_before(ag, ev.last().agreement_id, cutoff) {
        events_kept(ev.drop_last(), ag, cutoff)
    } else {
        events_kept(ev.drop_last(), ag, cutoff).push(ev.last())
    }
}

/// The retention in days: the configured value, raised to the minimum, or
/// the default where none is configured.
pub open spec fn retention_days_spec(configured: Option<u64>) -> u64 {
    match configured {
        None => AGREEMENT_STORE_DAYS_DEFAULT,
        Some(d) => if d < AGREEMENT_STORE_DAYS_MIN { AGREEMENT_STORE_DAYS_MIN } else { d },
    }
}

pub fn retention_days(configured: Option<u64>) -> (r: u64)
    ensures
        r == retention_days_spec(configured),
        r >= AGREEMENT_STORE_DAYS_MIN,
{
    match configured {
        None => AGREEMENT_STORE_DAYS_DEFAULT,
        Some(d) => if d < AGREEMENT_STORE_DAYS_MIN { AGREEMENT_STORE_DAYS_MIN } else { d },
    }
}

fn copy_session(s: &Option<String>) -> (r: Option<String>)
    ensures
        session_view(r) == session_view(*s),
{
    match s {
        Some(v) => Some(v.clone()),
        None => None,
    }
}

fn copy_agreement(a: &Agreement) -> (r: Agreement)
    ensures
        same_agreement(r, *a),
{
    Agreement {
        id: a.id,
        offer_proposal_id: a.offer_proposal_id,
        provider_id: a.provider_id,
        requestor_id: a.requestor_id,
        valid_to: a.valid_to,
        state: a.state,
        session_id: copy_session(&a.session_id),
        created_ts: a.created_ts,
        approved_ts: a.approved_ts,
        terminated_ts: a.terminated_ts,
    }
}

proof fn lemma_kinds_push(ev: Seq<AgreementEvent>, e: AgreementEvent, id: AgreementId)
    ensures
        log_of(ev.push(e), id) == if e.agreement_id == id {
            log_of(ev, id).push((e.kind, e.timestamp))
        } else {
            log_of(ev, id)
        },
{
    assert(ev.push(e).drop_last() == ev);
}

/// Replacing one agreement by another with the same id, anchor and parties
/// keeps the store sound when the log of that id matches the new state and
/// the logs of all other ids are unchanged.
proof fn lemma_update_row(
    ag: Seq<Agreement>,
    ev: Seq<AgreementEvent>,
    ev2: Seq<AgreementEvent>,
    k: int,
    a2: Agreement,
)
    requires
        store_wf(ag, ev),
        0 <= k < ag.len(),
        a2.id == ag[k].id,
        a2.offer_proposal_id == ag[k].offer_proposal_id,
        a2.provider_id == ag[k].provider_id,
        a2.requestor_id == ag[k].requestor_id,
        log_fits(log_of(ev2, a2.id), a2),
        forall|id: AgreementId| id != a2.id ==> log_of(ev2, id) == log_of(ev, id),
    ensures
        store_wf(ag.update(k, a2), ev2),
{
    let n = ag.update(k, a2);
    assert forall|i: int| 0 <= i < n.len() implies log_fits(log_of(ev2, (#[trigger] n[i]).id), n[i]) by {
        if i != k {
            assert(ag[i].id != ag[k].id);
            assert(log_fits(log_of(ev, ag[i].id), ag[i]));
        }
    }
    assert forall|id: AgreementId| !has_agreement(n, id) implies #[trigger] log_of(ev2, id)
        == Seq::<(AgreementEventKind, i64)>::empty() by {
        if has_agreement(ag, id) {
            let i = choose|i: int| 0 <= i < ag.len() && ag[i].id == id;
            assert(n[i].id == id);
        }
    }
}

/// Logging `e` against agreement `k` keeps all other logs as they were.
proof fn lemma_log_append(ev: Seq<AgreementEvent>, e: AgreementEvent)
    ensures
        log_of(ev.push(e), e.agreement_id) == log_of(ev, e.agreement_id).push((e.kind, e.timestamp)),
        forall|id: AgreementId| id != e.agreement_id ==> #[trigger] log_of(ev.push(e), id) == log_of(ev, id),
{
    lemma_kinds_push(ev, e, e.agreement_id);
    assert forall|id: AgreementId| id != e.agreement_id implies #[trigger] log_of(ev.push(e), id) == log_of(ev, id) by {
        lemma_kinds_push(ev, e, id);
    }
}

impl AgreementDao {
    /// The stored agreements.
    pub closed spec fn agreements_view(&self) -> Seq<Agreement> {
        self.agreements@
    }

    /// The agreement event log, oldest first.
    pub closed spec fn log_view(&self) -> Seq<AgreementEvent> {
        self.events@
    }

    pub open spec fn wf(&self) -> bool {
        store_wf(self.agreements_view(), self.log_view())
    }

    pub fn new() -> (r: AgreementDao)
        ensures
            r.wf(),
            r.agreements_view().len() == 0,
            r.log_view().len() == 0,
    {
        AgreementDao { agreements: Vec::new(), events: Vec::new() }
    }

    /// The stored agreements.
    pub fn agreements(&self) -> (r: &Vec<Agreement>)
        ensures
            r@ == self.agreements_view(),
    {
        &self.agreements
    }

    /// The agreement event log, oldest first.
    pub fn events(&self) -> (r: &Vec<AgreementEvent>)
        ensures
            r@ == self.log_view(),
    {
        &self.events
    }

    fn locate(&self, id: AgreementId) -> (r: Option<usize>)
        ensures
            r is None <==> !has_agreement(self.agreements@, id),
            r is Some ==> r->Some_0 < self.agreements@.len() && self.agreements@[r->Some_0 as int].id == id,
    {
        let mut i: usize = 0;
        while i < self.agreements.len()
            invariant
                i <= self.agreements@.len(),
                forall|k: int| 0 <= k < i ==> self.agreements@[k].id != id,
            decreases self.agreements@.len() - i,
        {
            if self.agreements[i].id == id {
                return Some(i);
            }
            i += 1;
        }
        None
    }

    /// The position of the agreement anchored on `proposal_id`, if any.
    fn find_agreement_for_proposal(&self, proposal_id: ProposalId) -> (r: Option<usize>)
        ensures
            r is None <==> !(exists|i: int|
                0 <= i < self.agreements@.len() && self.agreements@[i].offer_proposal_id == proposal_id),
            r is Some ==> r->Some_0 < self.agreements@.len()
                && self.agreements@[r->Some_0 as int].offer_proposal_id == proposal_id,
    {
        let mut i: usize = 0;
        while i < self.agreements.len()
            invariant
                i <= self.agreements@.len(),
                forall|k: int| 0 <= k < i ==> self.agreements@[k].offer_proposal_id != proposal_id,
            decreases self.agreements@.len() - i,
        {
            if self.agreements[i].offer_proposal_id == proposal_id {
                return Some(i);
            }
            i += 1;
        }
        None
    }

    /// Moves agreement `k` to `to` where the state machine allows it.
    fn update_state(&mut self, k: usize, to: AgreementState) -> (r: Result<(), StateError>)
        requires
            k < old(self).agreements_view().len(),
        ensures
            final(self).log_view() == old(self).log_view(),
            r is Ok <==> transition_allowed(old(self).agreements_view()[k as int].state, to),
            r is Err ==> r == Err::<(), StateError>(
                StateError::InvalidTransition { from: old(self).agreements_view()[k as int].state, to },
            ) && final(self).agreements_view() == old(self).agreements_view(),
            r is Ok ==> final(self).agreements_view() == old(self).agreements_view().update(
                k as int,
                Agreement { state: to, ..old(self).agreements_view()[k as int] },
            ),
    {
        check_transition(self.agreements[k].state, to)?;
        self.agreements[k].state = to;
        Ok(())
    }

    /// Binds agreement `k` to application session `session_id`.
    fn update_session(&mut self, k: usize, session_id: String)
        requires
            k < old(self).agreements_view().len(),
        ensures
            final(self).log_view() == old(self).log_view(),
            final(self).agreements_view() == old(self).agreements_view().update(
                k as int,
                Agreement { session_id: Some(session_id), ..old(self).agreements_view()[k as int] },
            ),
    {
        self.agreements[k].session_id = Some(session_id);
    }

    /// Moves agreement `id` to `to`, writing `session` where one is given.
    fn transition(&mut self, id: AgreementId, to: AgreementState, session: Option<String>) -> (r: Result<usize, StateError>)
        requires
            old(self).wf(),
        ensures
            final(self).log_view() == old(self).log_view(),
            r is Err ==> final(self).agreements_view() == old(self).agreements_view(),
            !has_agreement(old(self).agreements_view(), id) <==> r == Err::<usize, StateError>(StateError::NotFound { id }),
            r is Ok ==> {
                let k = r->Ok_0 as int;
                &&& 0 <= k < old(self).agreements_view().len()
                &&& old(self).agreements_view()[k].id == id
                &&& transition_allowed(old(self).agreements_view()[k].state, to)
                &&& final(self).agreements_view() == old(self).agreements_view().update(k, moved(old(self).agreements_view()[k], to, session))
            },
            forall|k: int| 0 <= k < old(self).agreements_view().len() && old(self).agreements_view()[k].id == id ==> {
                (r is Err <==> !transition_allowed(old(self).agreements_view()[k].state, to))
                && (r is Err ==> r == Err::<usize, StateError>(
                    StateError::InvalidTransition { from: old(self).agreements_view()[k].state, to },
                ) && final(self).agreements_view() == old(self).agreements_view()) && (r is Ok ==> r->Ok_0 == k)
            },
    {
        let k = match self.locate(id) {
            None => return Err(StateError::NotFound { id }),
            Some(k) => k,
        };
        proof {
            assert forall|j: int| 0 <= j < self.agreements@.len() && self.agreements@[j].id == id implies j == k by {
                if j != k {
                    assert(self.agreements@[j].id != self.agreements@[k as int].id);
                }
            }
        }
        let ghost before = self.agreements@;
        match self.update_state(k, to) {
            Err(e) => return Err(e),
            Ok(()) => {},
        }
        match session {
            Some(s) => self.update_session(k, s),
            None => {},
        }
        proof {
            assert(self.agreements@ =~= before.update(k as int, moved(before[k as int], to, session)));
        }
        Ok(k)
    }

    /// `Proposal -> Pending`, writing `session` where one is given; nothing
    /// is logged.
    pub fn confirm(&mut self, id: &AgreementId, session: Option<String>) -> (r: Result<(), StateError>)
        requires
            old(self).wf(),
        ensures
            final(self).wf(),
            final(self).log_view() == old(self).log_view(),
            !has_agreement(old(self).agreements_view(), *id) <==> r == Err::<(), StateError>(StateError::NotFound { id: *id }),
            !has_agreement(old(self).agreements_view(), *id) ==> final(self).agreements_view() == old(self).agreements_view(),
            forall|k: int| 0 <= k < old(self).agreements_view().len() && old(self).agreements_view()[k].id == *id ==> {
                let a = old(self).agreements_view()[k];
                if transition_allowed(a.state, AgreementState::Pending) {
                    r is Ok && final(self).agreements_view() == old(self).agreements_view().update(
                        k,
                        moved(a, AgreementState::Pending, session),
                    )
                } else {
                    r == Err::<(), StateError>(StateError::InvalidTransition { from: a.state, to: AgreementState::Pending })
                        && final(self).agreements_view() == old(self).agreements_view()
                }
            },
    {
        let ghost ag = self.agreements@;
        match self.transition(*id, AgreementState::Pending, session) {
            Ok(k) => {
                proof {
                    lemma_update_row(ag, self.events@, self.events@, k as int, moved(ag[k as int], AgreementState::Pending, session));
                }
                Ok(())
            },
            Err(e) => Err(e),
        }
    }

    /// `Pending -> Approved` at `now`, writing `session` only where one is
    /// given, and logging an `Approved` event on the provider's behalf.
    pub fn approve(&mut self, id: &AgreementId, session: Option<String>, now: i64) -> (r: Result<(), StateError>)
        requires
            old(self).wf(),
        ensures
            final(self).wf(),
            !has_agreement(old(self).agreements_view(), *id) <==> r == Err::<(), StateError>(StateError::NotFound { id: *id }),
            r is Err ==> final(self).agreements_view() == old(self).agreements_view() && final(self).log_view() == old(self).log_view(),
            forall|k: int| 0 <= k < old(self).agreements_view().len() && old(self).agreements_view()[k].id == *id ==> {
                let a = old(self).agreements_view()[k];
                if transition_allowed(a.state, AgreementState::Approved) {
                    &&& r is Ok
                    &&& final(self).agreements_view() == old(self).agreements_view().update(
                        k,
                        Agreement { approved_ts: Some(now), ..moved(a, AgreementState::Approved, session) },
                    )
                    &&& final(self).log_view() == old(self).log_view().push(
                        AgreementEvent {
                            agreement_id: *id,
                            kind: AgreementEventKind::Approved,
                            reason: None,
                            terminator: OwnerType::Provider,
                            timestamp: now,
                        },
                    )
                } else {
                    r == Err::<(), StateError>(StateError::InvalidTransition { from: a.state, to: AgreementState::Approved })
                }
            },
    {
        let ghost ag = self.agreements@;
        let k = match self.transition(*id, AgreementState::Approved, session) {
            Ok(k) => k,
            Err(e) => return Err(e),
        };
        self.agreements[k].approved_ts = Some(now);
        let e = AgreementEvent {
            agreement_id: *id,
            kind: AgreementEventKind::Approved,
            reason: None,
            terminator: OwnerType::Provider,
            timestamp: now,
        };
        let ghost ev = self.events@;
        proof {
            lemma_log_append(ev, e);
        }
        self.events.push(e);
        proof {
            let a2 = Agreement { approved_ts: Some(now), ..moved(ag[k as int], AgreementState::Approved, session) };
            assert(log_fits(log_of(ev, ag[k as int].id), ag[k as int]));
            assert(log_of(ev, ag[k as int].id).push((AgreementEventKind::Approved, now)) =~= seq![
                (AgreementEventKind::Approved, now),
            ]);
            assert(self.agreements@ =~= ag.update(k as int, a2));
            lemma_update_row(ag, ev, self.events@, k as int, a2);
        }
        Ok(())
    }

    /// `Approved -> Terminated` at `now`, or at the approval time where `now`
    /// is earlier, logging a `Terminated` event with the reason and the side
    /// that terminated.
    pub fn terminate(
        &mut self,
        id: &AgreementId,
        reason: Option<String>,
        terminator: OwnerType,
        now: i64,
    ) -> (r: Result<bool, StateError>)
        requires
            old(self).wf(),
        ensures
            final(self).wf(),
            !has_agreement(old(self).agreements_view(), *id) <==> r == Err::<bool, StateError>(StateError::NotFound { id: *id }),
            r is Err ==> final(self).agreements_view() == old(self).agreements_view() && final(self).log_view() == old(self).log_view(),
            r is Ok ==> r == Ok::<bool, StateError>(true),
            forall|k: int| 0 <= k < old(self).agreements_view().len() && old(self).agreements_view()[k].id == *id ==> {
                let a = old(self).agreements_view()[k];
                if transition_allowed(a.state, AgreementState::Terminated) {
                    &&& r is Ok
                    &&& final(self).agreements_view() == old(self).agreements_view().update(
                        k,
                        Agreement {
                            state: AgreementState::Terminated,
                            terminated_ts: Some(termination_time(a, now)),
                            ..a
                        },
                    )
                    &&& final(self).log_view() == old(self).log_view().push(
                        AgreementEvent {
                            agreement_id: *id,
                            kind: AgreementEventKind::Terminated,
                            reason,
                            terminator,
                            timestamp: termination_time(a, now),
                        },
                    )
                } else {
                    r == Err::<bool, StateError>(StateError::InvalidTransition { from: a.state, to: AgreementState::Terminated })
                }
            },
    {
        let ghost ag = self.agreements@;
        let k = match self.transition(*id, AgreementState::Terminated, None) {
            Ok(k) => k,
            Err(e) => return Err(e),
        };
        let ts = match self.agreements[k].approved_ts {
            Some(t) => if now < t { t } else { now },
            None => now,
        };
        self.agreements[k].terminated_ts = Some(ts);
        let e = AgreementEvent {
            agreement_id: *id,
            kind: AgreementEventKind::Terminated,
            reason,
            terminator,
            timestamp: ts,
        };
        let ghost ev = self.events@;
        proof {
            lemma_log_append(ev, e);
        }
        self.events.push(e);
        proof {
            let a2 = Agreement { state: AgreementState::Terminated, terminated_ts: Some(ts), ..ag[k as int] };
            assert(log_fits(log_of(ev, ag[k as int].id), ag[k as int]));

            assert(self.agreements@ =~= ag.update(k as int, a2));
            lemma_update_row(ag, ev, self.events@, k as int, a2);
        }
        Ok(true)
    }

    /// Applies expiry at `now` to agreement `k`; a state that admits no
    /// expiry is left as it is.
    fn expire(&mut self, k: usize, now: i64)
        requires
            old(self).wf(),
            k < old(self).agreements_view().len(),
        ensures
            final(self).wf(),
            final(self).log_view() == old(self).log_view(),
            final(self).agreements_view() == old(self).agreements_view().update(k as int, expired_at(old(self).agreements_view()[k as int], now)),
    {
        let ghost ag = self.agreements@;
        if self.agreements[k].valid_to < now {
            match self.update_state(k, AgreementState::Expired) {
                Ok(()) => {
                    proof {
                        assert(log_fits(log_of(self.events@, ag[k as int].id), ag[k as int]));
                        lemma_update_row(ag, self.events@, self.events@, k as int, expired_at(ag[k as int], now));
                    }
                },
                Err(_) => {
                    proof {
                        assert(ag.update(k as int, ag[k as int]) =~= ag);
                    }
                },
            }
        } else {
            proof {
                assert(ag.update(k as int, ag[k as int]) =~= ag);
            }
        }
    }

    /// Reads agreement `id`, restricted, where `node_id` is given, to the
    /// node on the side that `id` belongs to. An agreement whose `valid_to`
    /// has passed at `validation_ts` is stored and returned as `Expired`
    /// where its state admits that; otherwise its state is kept.
    pub fn select(
        &mut self,
        id: &AgreementId,
        node_id: Option<NodeId>,
        validation_ts: i64,
    ) -> (r: Result<Option<Agreement>, StateError>)
        requires
            old(self).wf(),
        ensures
            final(self).wf(),
            final(self).log_view() == old(self).log_view(),
            r is Ok,
            (forall|k: int| 0 <= k < old(self).agreements_view().len() ==> !owner_match(old(self).agreements_view()[k], *id, node_id))
                ==> r->Ok_0 is None && final(self).agreements_view() == old(self).agreements_view(),
            forall|k: int| 0 <= k < old(self).agreements_view().len() && owner_match(old(self).agreements_view()[k], *id, node_id) ==> {
                let a = expired_at(old(self).agreements_view()[k], validation_ts);
                &&& r->Ok_0 is Some
                &&& same_agreement(r->Ok_0->Some_0, a)
                &&& final(self).agreements_view() == old(self).agreements_view().update(k, a)
            },
    {
        let k = match self.locate(*id) {
            None => return Ok(None),
            Some(k) => k,
        };
        let ghost ag = self.agreements@;
        proof {
            assert forall|j: int| 0 <= j < ag.len() && ag[j].id == *id implies j == k by {
                if j != k {
                    assert(ag[j].id != ag[k as int].id);
                }
            }
        }
        let owner_ok = match node_id {
            None => true,
            Some(n) => match id.owner() {
                OwnerType::Provider => self.agreements[k].provider_id == n,
                OwnerType::Requestor => self.agreements[k].requestor_id == n,
            },
        };
        if !owner_ok {
            return Ok(None);
        }
        self.expire(k, validation_ts);
        Ok(Some(copy_agreement(&self.agreements[k])))
    }

    /// Reads the agreement that `node_id` is party to under `id` or under its
    /// mirror id, the first one stored where both are. Expiry at
    /// `validation_ts` is applied as in `select`.
    pub fn select_by_node(
        &mut self,
        id: AgreementId,
        node_id: NodeId,
        validation_ts: i64,
    ) -> (r: Result<Option<Agreement>, StateError>)
        requires
            old(self).wf(),
        ensures
            final(self).wf(),
            final(self).log_view() == old(self).log_view(),
            r is Ok,
            (forall|k: int| 0 <= k < old(self).agreements_view().len() ==> !node_match(old(self).agreements_view()[k], id, node_id))
                ==> r->Ok_0 is None && final(self).agreements_view() == old(self).agreements_view(),
            forall|k: int|
                0 <= k < old(self).agreements_view().len() && node_match(old(self).agreements_view()[k], id, node_id) && (forall|j: int|
                    0 <= j < k ==> !node_match(old(self).agreements_view()[j], id, node_id)) ==> {
                    let a = expired_at(old(self).agreements_view()[k], validation_ts);
                    &&& r->Ok_0 is Some
                    &&& same_agreement(r->Ok_0->Some_0, a)
                    &&& final(self).agreements_view() == old(self).agreements_view().update(k, a)
                },
    {
        let swapped = id.swap_owner();
        let mut i: usize = 0;
        while i < self.agreements.len()
            invariant
                i <= self.agreements@.len(),
                swapped == swapped_agreement(id),
                self.wf(),
                self.agreements@ == old(self).agreements_view(),
                self.events@ == old(self).log_view(),
                forall|j: int| 0 <= j < i ==> !node_match(self.agreements@[j], id, node_id),
            decreases self.agreements@.len() - i,
        {
            let a = &self.agreements[i];
            if (a.id == id || a.id == swapped) && (a.provider_id == node_id || a.requestor_id == node_id) {
                let ghost ag = self.agreements@;
                proof {
                    assert forall|k: int|
                        0 <= k < ag.len() && node_match(ag[k], id, node_id) && (forall|j: int|
                            0 <= j < k ==> !node_match(ag[j], id, node_id)) implies k == i by {
                        if k < i {
                        } else if k > i {
                            assert(node_match(ag[i as int], id, node_id));
                        }
                    }
                }
                self.expire(i, validation_ts);
                return Ok(Some(copy_agreement(&self.agreements[i])));
            }
            i += 1;
        }
        Ok(None)
    }

    /// Stores `agreement` and marks its proposal accepted, both or neither.
    /// Refused where the proposal was countered, where an agreement on it
    /// exists already, where the proposal is unknown, where both parties are
    /// one node, where the agreement is past its initial state, or where its
    /// id is taken.
    pub fn save(&mut self, proposals: &mut ProposalStore, agreement: Agreement) -> (r: Result<Agreement, SaveAgreementError>)
        requires
            old(self).wf(),
            old(proposals).wf(),
        ensures
            final(self).wf(),
            final(proposals).wf(),
            final(self).log_view() == old(self).log_view(),
            r is Err <==> save_error(old(self).agreements_view(), old(proposals).rows_view(), agreement) is Some,
            r is Err ==> r == Err::<Agreement, SaveAgreementError>(
                save_error(old(self).agreements_view(), old(proposals).rows_view(), agreement)->Some_0,
            ) && final(self).agreements_view() == old(self).agreements_view() && *final(proposals) == *old(proposals),
            r is Ok ==> {
                &&& same_agreement(r->Ok_0, agreement)
                &&& final(self).agreements_view() == old(self).agreements_view().push(agreement)
                &&& final(proposals).rows_view() == with_accepted(old(proposals).rows_view(), agreement.offer_proposal_id)
                &&& final(proposals).bodies_view() == old(proposals).bodies_view()
            },
    {
        let pid = agreement.offer_proposal_id;
        let ghost ag = self.agreements@;
        if proposals.has_counter(pid) {
            return Err(SaveAgreementError::ProposalCountered(pid));
        }
        match self.find_agreement_for_proposal(pid) {
            Some(i) => {
                proof {
                    let c = choose|c: int| 0 <= c < ag.len() && ag[c].offer_proposal_id == pid;
                    if c != i {
                        assert(ag[c].offer_proposal_id != ag[i as int].offer_proposal_id);
                    }
                }
                return Err(SaveAgreementError::Exists(self.agreements[i].id, pid));
            },
            None => {},
        }
        if proposals.get(pid).is_none() {
            return Err(SaveAgreementError::ProposalNotFound(pid));
        }
        if agreement.provider_id == agreement.requestor_id {
            return Err(SaveAgreementError::SameNode(agreement.provider_id));
        }
        if agreement.state != AgreementState::Proposal {
            return Err(SaveAgreementError::NotInitialState(agreement.state));
        }
        if self.locate(agreement.id).is_some() {
            return Err(SaveAgreementError::DuplicateId(agreement.id));
        }
        let saved = copy_agreement(&agreement);
        let ghost a = agreement;
        self.agreements.push(agreement);
        let accepted = proposals.mark_accepted(pid);
        proof {
            assert(accepted is Ok);
            let n = self.agreements@;
            let ev = self.events@;
            assert(n[ag.len() as int] == a);
            assert(log_of(ev, a.id) == Seq::<(AgreementEventKind, i64)>::empty());
            assert forall|i: int, j: int| 0 <= i < n.len() && 0 <= j < n.len() && i != j implies n[i].id != n[j].id by {
                if i < ag.len() && j == ag.len() {
                    assert(!(0 <= i < ag.len() && ag[i].id == a.id));
                } else if j < ag.len() && i == ag.len() {
                    assert(!(0 <= j < ag.len() && ag[j].id == a.id));
                }
            }
            assert forall|i: int| 0 <= i < n.len() implies log_fits(log_of(ev, (#[trigger] n[i]).id), n[i]) by {
                if i < ag.len() {
                    assert(n[i] == ag[i]);
                }
            }
            assert forall|id: AgreementId| !has_agreement(n, id) implies #[trigger] log_of(ev, id)
                == Seq::<(AgreementEventKind, i64)>::empty() by {
                if has_agreement(ag, id) {
                    let i = choose|i: int| 0 <= i < ag.len() && ag[i].id == id;
                    assert(n[i].id == id);
                }
            }
        }
        Ok(saved)
    }

    /// Whether the agreement stored under `id` is stale at `cutoff`.
    fn id_stale(&self, id: AgreementId, cutoff: i128) -> (r: bool)
        requires
            ids_distinct(self.agreements@),
        ensures
            r == expired_before(self.agreements@, id, cutoff as int),
    {
        match self.locate(id) {
            None => false,
            Some(k) => {
                proof {
                    let ag = self.agreements@;
                    assert forall|j: int| 0 <= j < ag.len() && ag[j].id == id implies j == k by {
                        if j != k {
                            assert(ag[j].id != ag[k as int].id);
                        }
                    }
                }
                (self.agreements[k].valid_to as i128) < cutoff
            },
        }
    }

    /// Deletes, with their logged events, the agreements whose `valid_to` lies
    /// more than `store_days` days before `now`; a retention below the
    /// minimum is raised to it.
    pub fn clean(&mut self, now: i64, store_days: u64)
        requires
            old(self).wf(),
        ensures
            final(self).wf(),
            final(self).agreements_view() == agreements_kept(old(self).agreements_view(), now - retention_days_spec(Some(store_days)) * 86400),
            final(self).log_view() == events_kept(old(self).log_view(), old(self).agreements_view(), now - retention_days_spec(Some(store_days)) * 86400),
            forall|i: int| 0 <= i < final(self).agreements_view().len() ==> !stale(
                #[trigger] final(self).agreements_view()[i],
                now - retention_days_spec(Some(store_days)) * 86400,
            ),
            forall|k: int| 0 <= k < old(self).agreements_view().len() && stale(
                #[trigger] old(self).agreements_view()[k],
                now - retention_days_spec(Some(store_days)) * 86400,
            ) ==> !has_agreement(final(self).agreements_view(), old(self).agreements_view()[k].id) && log_of(
                final(self).log_view(),
                old(self).agreements_view()[k].id,
            ) == Seq::<(AgreementEventKind, i64)>::empty(),
    {
        let days = retention_days(Some(store_days));
        let cutoff: i128 = now as i128 - (days as i128) * SECONDS_PER_DAY;
        let ghost c = cutoff as int;
        let ghost ag0 = self.agreements@;
        let ghost ev0 = self.events@;
        let mut i: usize = 0;
        let ghost mut j: int = 0;
        while i < self.events.len()
            invariant
                c == now - retention_days_spec(Some(store_days)) * 86400,
                c == cutoff as int,
                self.agreements@ == ag0,
                store_wf(ag0, ev0),
                0 <= j <= ev0.len(),
                i <= j,
                self.events@ == events_kept(ev0.subrange(0, j), ag0, c) + ev0.subrange(j, ev0.len() as int),
                i == events_kept(ev0.subrange(0, j), ag0, c).len(),
            decreases ev0.len() - j,
        {
            let ghost kept = events_kept(ev0.subrange(0, j), ag0, c);
            proof {
                assert(ev0.subrange(0, j + 1).drop_last() == ev0.subrange(0, j));
                assert(ev0.subrange(0, j + 1).last() == ev0[j]);
                assert(self.events@[i as int] == ev0[j]);
            }
            if self.id_stale(self.events[i].agreement_id, cutoff) {
                self.events.remove(i);
                proof {
                    assert(self.events@ =~= kept + ev0.subrange(j + 1, ev0.len() as int));
                }
            } else {
                proof {
                    assert(self.events@ =~= kept.push(ev0[j]) + ev0.subrange(j + 1, ev0.len() as int));
                }
                i += 1;
            }
            proof {
                j = j + 1;
            }
        }
        proof {
            assert(ev0.subrange(0, j) =~= ev0);
            assert(self.events@ =~= events_kept(ev0, ag0, c));
        }
        let mut i: usize = 0;
        let ghost mut j: int = 0;
        while i < self.agreements.len()
            invariant
                c == cutoff as int,
                c == now - retention_days_spec(Some(store_days)) * 86400,
                store_wf(ag0, ev0),
                self.events@ == events_kept(ev0, ag0, c),
                0 <= j <= ag0.len(),
                i <= j,
                self.agreements@ == agreements_kept(ag0.subrange(0, j), c) + ag0.subrange(j, ag0.len() as int),
                i == agreements_kept(ag0.subrange(0, j), c).len(),
            decreases ag0.len() - j,
        {
            let ghost kept = agreements_kept(ag0.subrange(0, j), c);
            proof {
                assert(ag0.subrange(0, j + 1).drop_last() == ag0.subrange(0, j));
                assert(ag0.subrange(0, j + 1).last() == ag0[j]);
                assert(self.agreements@[i as int] == ag0[j]);
            }
            if (self.agreements[i].valid_to as i128) < cutoff {
                let _ = self.agreements.remove(i);
                proof {
                    assert(self.agreements@ =~= kept + ag0.subrange(j + 1, ag0.len() as int));
                }
            } else {
                proof {
                    assert(self.agreements@ =~= kept.push(ag0[j]) + ag0.subrange(j + 1, ag0.len() as int));
                }
                i += 1;
            }
            proof {
                j = j + 1;
            }
        }
        proof {
            assert(ag0.subrange(0, j) =~= ag0);
            assert(self.agreements@ =~= agreements_kept(ag0, c));
            lemma_sweep_wf(ag0, ev0, c);
        }
    }
}

/// What a sweep keeps are agreements of the store that are not stale, with
/// ids and anchors still distinct, and every agreement that is not stale.
proof fn lemma_kept_agreements(ag: Seq<Agreement>, c: int)
    requires
        ids_distinct(ag),
        offers_distinct(ag),
    ensures
        ids_distinct(agreements_kept(ag, c)),
        offers_distinct(agreements_kept(ag, c)),
        forall|i: int|
            0 <= i < agreements_kept(ag, c).len() ==> exists|k: int|
                0 <= k < ag.len() && #[trigger] agreements_kept(ag, c)[i] == ag[k] && !stale(ag[k], c),
        forall|k: int|
            0 <= k < ag.len() && !stale(#[trigger] ag[k], c) ==> exists|i: int|
                0 <= i < agreements_kept(ag, c).len() && agreements_kept(ag, c)[i] == ag[k],
    decreases ag.len(),
{
    if ag.len() > 0 {
        let p = ag.drop_last();
        let e = ag.last();
        lemma_kept_agreements(p, c);
        let kp = agreements_kept(p, c);
        let ka = agreements_kept(ag, c);
        assert forall|k: int| 0 <= k < ag.len() && !stale(#[trigger] ag[k], c) implies exists|i: int|
            0 <= i < ka.len() && ka[i] == ag[k] by {
            if k < p.len() {
                assert(!stale(p[k], c));
                let i = choose|i: int| 0 <= i < kp.len() && kp[i] == p[k];
                assert(ka[i] == ag[k]);
            } else {
                assert(ka[kp.len() as int] == ag[k]);
            }
        }
        assert forall|i: int| 0 <= i < ka.len() implies exists|k: int|
            0 <= k < ag.len() && #[trigger] ka[i] == ag[k] && !stale(ag[k], c) by {
            if i < kp.len() {
                let k = choose|k: int| 0 <= k < p.len() && #[trigger] kp[i] == p[k] && !stale(p[k], c);
                assert(ka[i] == ag[k]);
            } else {
                assert(ka[i] == ag[ag.len() - 1]);
            }
        }
        if !stale(e, c) {
            assert forall|i: int, j: int| 0 <= i < ka.len() && 0 <= j < ka.len() && i != j implies ka[i].id != ka[j].id
                && ka[i].offer_proposal_id != ka[j].offer_proposal_id by {
                if i < kp.len() && j < kp.len() {
                } else if i < kp.len() {
                    let k = choose|k: int| 0 <= k < p.len() && #[trigger] kp[i] == p[k] && !stale(p[k], c);
                    assert(ag[k] == p[k]);
                } else {
                    let k = choose|k: int| 0 <= k < p.len() && #[trigger] kp[j] == p[k] && !stale(p[k], c);
                    assert(ag[k] == p[k]);
                }
            }
        }
    }
}

/// What a sweep leaves of an agreement's log: nothing where it was stale,
/// everything otherwise.
proof fn lemma_kinds_kept(ev: Seq<AgreementEvent>, ag: Seq<Agreement>, c: int, id: AgreementId)
    ensures
        log_of(events_kept(ev, ag, c), id) == if expired_before(ag, id, c) {
            Seq::<(AgreementEventKind, i64)>::empty()
        } else {
            log_of(ev, id)
        },
    decreases ev.len(),
{
    if ev.len() > 0 {
        let p = ev.drop_last();
        lemma_kinds_kept(p, ag, c, id);
        if !expired_before(ag, ev.last().agreement_id, c) {
            lemma_kinds_push(events_kept(p, ag, c), ev.last(), id);
        }
    }
}

proof fn lemma_sweep_wf(ag: Seq<Agreement>, ev: Seq<AgreementEvent>, c: int)
    requires
        store_wf(ag, ev),
    ensures
        store_wf(agreements_kept(ag, c), events_kept(ev, ag, c)),
        forall|i: int| 0 <= i < agreements_kept(ag, c).len() ==> !stale(#[trigger] agreements_kept(ag, c)[i], c),
        forall|k: int| 0 <= k < ag.len() && stale(#[trigger] ag[k], c) ==> !has_agreement(agreements_kept(ag, c), ag[k].id)
            && log_of(events_kept(ev, ag, c), ag[k].id) == Seq::<(AgreementEventKind, i64)>::empty(),
{
    let ka = agreements_kept(ag, c);
    let ke = events_kept(ev, ag, c);
    lemma_kept_agreements(ag, c);
    assert forall|i: int| 0 <= i < ka.len() implies !stale(#[trigger] ka[i], c) && ka[i].provider_id != ka[i].requestor_id
        && log_fits(log_of(ke, ka[i].id), ka[i]) by {
        let k = choose|k: int| 0 <= k < ag.len() && #[trigger] ka[i] == ag[k] && !stale(ag[k], c);
        assert(ag[k].provider_id != ag[k].requestor_id);
        lemma_kinds_kept(ev, ag, c, ag[k].id);
        if expired_before(ag, ag[k].id, c) {
            let m = choose|m: int| 0 <= m < ag.len() && ag[m].id == ag[k].id && stale(ag[m], c);
            assert(m == k);
        }
        assert(log_fits(log_of(ev, ag[k].id), ag[k]));
    }
    assert forall|id: AgreementId| !has_agreement(ka, id) implies #[trigger] log_of(ke, id)
        == Seq::<(AgreementEventKind, i64)>::empty() by {
        lemma_kinds_kept(ev, ag, c, id);
        if !expired_before(ag, id, c) && has_agreement(ag, id) {
            let k = choose|k: int| 0 <= k < ag.len() && ag[k].id == id;
            assert(!stale(ag[k], c));
            let i = choose|i: int| 0 <= i < ka.len() && ka[i] == ag[k];
            assert(ka[i].id == id);
        }
    }
    assert forall|k: int| 0 <= k < ag.len() && stale(#[trigger] ag[k], c) implies !has_agreement(ka, ag[k].id)
        && log_of(ke, ag[k].id) == Seq::<(AgreementEventKind, i64)>::empty() by {
        lemma_kinds_kept(ev, ag, c, ag[k].id);
        if has_agreement(ka, ag[k].id) {
            let i = choose|i: int| 0 <= i < ka.len() && ka[i].id == ag[k].id;
            let m = choose|m: int| 0 <= m < ag.len() && #[trigger] ka[i] == ag[m] && !stale(ag[m], c);
            assert(m != k);
        }
    }
}

/// Saving an agreement, then saving it again, fails the second time with
/// `Exists`, naming the first agreement and its proposal.
pub proof fn lemma_save_twice(
    ag: Seq<Agreement>,
    ev: Seq<AgreementEvent>,
    proposals: Seq<crate::proposal_store::ProposalRow>,
    a: Agreement,
)
    requires
        store_wf(ag, ev),
        save_error(ag, proposals, a) is None,
    ensures
        save_error(ag.push(a), with_accepted(proposals, a.offer_proposal_id), a) == Some(
            SaveAgreementError::Exists(a.id, a.offer_proposal_id),
        ),
{
    let n = ag.push(a);
    let pid = a.offer_proposal_id;
    assert(n[ag.len() as int].offer_proposal_id == pid);
    let c = choose|c: int| 0 <= c < n.len() && n[c].offer_proposal_id == pid;
    if c < ag.len() {
        assert(ag[c].offer_proposal_id == pid);
    }
}

/// A confirmed agreement is `Pending`, so confirming it again fails with
/// `InvalidTransition { from: Pending, to: Pending }`.
pub proof fn lemma_confirm_twice(ag: Seq<Agreement>, k: int, session: Option<String>)
    requires
        0 <= k < ag.len(),
        transition_allowed(ag[k].state, AgreementState::Pending),
    ensures
        ({
            let after = ag.update(k, moved(ag[k], AgreementState::Pending, session));
            &&& after[k].id == ag[k].id
            &&& after[k].state == AgreementState::Pending
            &&& !transition_allowed(after[k].state, AgreementState::Pending)
        }),
{
}

/// The parties of a stored agreement differ.
pub proof fn lemma_parties_distinct(ag: Seq<Agreement>, ev: Seq<AgreementEvent>, i: int)
    requires
        store_wf(ag, ev),
        0 <= i < ag.len(),
    ensures
        ag[i].provider_id != ag[i].requestor_id,
{
}

/// At most one stored agreement is anchored on any proposal.
pub proof fn lemma_one_agreement_per_proposal(ag: Seq<Agreement>, ev: Seq<AgreementEvent>, i: int, j: int)
    requires
        store_wf(ag, ev),
        0 <= i < ag.len(),
        0 <= j < ag.len(),
        ag[i].offer_proposal_id == ag[j].offer_proposal_id,
    ensures
        i == j,
{
}

/// The log of a terminated agreement is one `Approved` event followed by one
/// `Terminated` event stamped no earlier, and nothing else.
pub proof fn lemma_terminated_log(ag: Seq<Agreement>, ev: Seq<AgreementEvent>, i: int)
    requires
        store_wf(ag, ev),
        0 <= i < ag.len(),
        ag[i].state == AgreementState::Terminated,
    ensures
        log_of(ev, ag[i].id).len() == 2,
        log_of(ev, ag[i].id)[0].0 == AgreementEventKind::Approved,
        log_of(ev, ag[i].id)[1].0 == AgreementEventKind::Terminated,
        log_of(ev, ag[i].id)[0].1 <= log_of(ev, ag[i].id)[1].1,
{
}

} // verus!
