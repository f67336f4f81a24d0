use vstd::prelude::*;

use crate::ids::{opposite, opposite_owner, OwnerType, ProposalId, SubscriptionId};

verus! {

/// One node of the negotiation tree. Its body is kept beside it in the store.
#[derive(PartialEq, Eq, Structural, Clone, Copy, Debug)]
pub struct ProposalRow {
    pub id: ProposalId,
    pub subscription_id: SubscriptionId,
    pub prev_proposal_id: Option<ProposalId>,
    pub created_ts: i64,
    pub expiry_ts: i64,
    pub accepted: bool,
    pub countered: bool,
}

#[derive(PartialEq, Eq, Structural, Clone, Copy, Debug)]
pub enum ProposalError {
    NotFound(ProposalId),
    ParentNotFound(ProposalId),
    AlreadyCountered(ProposalId),
    AlreadyAccepted(ProposalId),
    StoreFull,
}

/// Proposals of all subscriptions; a proposal's key is its position, so each
/// is reached in constant time from its id.
pub struct ProposalStore {
    rows: Vec<ProposalRow>,
    bodies: Vec<String>,
}

pub open spec fn contains(rows: Seq<ProposalRow>, id: ProposalId) -> bool {
    id.key < rows.len() && rows[id.key as int].id == id
}

pub open spec fn has_counter_spec(rows: Seq<ProposalRow>, id: ProposalId) -> bool {
    contains(rows, id) && rows[id.key as int].countered
}

/// A node's link to its parent: the parent precedes it, has the other owner
/// and is marked countered.
pub open spec fn parent_ok(rows: Seq<ProposalRow>, i: int) -> bool {
    rows[i].prev_proposal_id is Some ==> {
        let p = rows[i].prev_proposal_id->Some_0;
        &&& p.key < i
        &&& rows[p.key as int].id == p
        &&& p.owner != rows[i].id.owner
        &&& rows[p.key as int].countered
    }
}

/// Two distinct nodes never share a parent.
pub open spec fn siblings_absent(rows: Seq<ProposalRow>, i: int, j: int) -> bool {
    i != j && rows[i].prev_proposal_id is Some ==> rows[j].prev_proposal_id
        != rows[i].prev_proposal_id
}

/// The tree's invariants: keys are positions, no node is both accepted and
/// countered, every parent link is sound, and no parent has two children.
pub open spec fn rows_wf(rows: Seq<ProposalRow>) -> bool {
    &&& rows.len() <= u64::MAX
    &&& forall|i: int| 0 <= i < rows.len() ==> (#[trigger] rows[i]).id.key == i
    &&& forall|i: int| 0 <= i < rows.len() ==> !((#[trigger] rows[i]).accepted && rows[i].countered)
    &&& forall|i: int| 0 <= i < rows.len() ==> #[trigger] parent_ok(rows, i)
    &&& forall|i: int, j: int|
        0 <= i < rows.len() && 0 <= j < rows.len() ==> #[trigger] siblings_absent(rows, i, j)
}

/// Outcome of `save_counter` on a given store, `None` meaning success.
pub open spec fn counter_error(rows: Seq<ProposalRow>, parent: ProposalId) -> Option<ProposalError> {
    if !contains(rows, parent) {
        Some(ProposalError::ParentNotFound(parent))
    } else if rows[parent.key as int].countered {
        Some(ProposalError::AlreadyCountered(parent))
    } else if rows[parent.key as int].accepted {
        Some(ProposalError::AlreadyAccepted(parent))
    } else if rows.len() >= u64::MAX {
        Some(ProposalError::StoreFull)
    } else {
        None
    }
}

pub open spec fn accept_error(rows: Seq<ProposalRow>, id: ProposalId) -> Option<ProposalError> {
    if !contains(rows, id) {
        Some(ProposalError::NotFound(id))
    } else if rows[id.key as int].countered {
        Some(ProposalError::AlreadyCountered(id))
    } else {
        None
    }
}

pub open spec fn mark_counter_error(rows: Seq<ProposalRow>, id: ProposalId) -> Option<ProposalError> {
    if !contains(rows, id) {
        Some(ProposalError::NotFound(id))
    } else if rows[id.key as int].accepted {
        Some(ProposalError::AlreadyAccepted(id))
    } else {
        None
    }
}

pub open spec fn with_countered(rows: Seq<ProposalRow>, id: ProposalId) -> Seq<ProposalRow> {
    rows.update(id.key as int, ProposalRow { countered: true, ..rows[id.key as int] })
}

pub open spec fn with_accepted(rows: Seq<ProposalRow>, id: ProposalId) -> Seq<ProposalRow> {
    rows.update(id.key as int, ProposalRow { accepted: true, ..rows[id.key as int] })
}

/// The fresh node that `save_counter` appends under `parent`.
pub open spec fn counter_row(
    rows: Seq<ProposalRow>,
    parent: ProposalId,
    subscription_id: SubscriptionId,
    created_ts: i64,
    expiry_ts: i64,
) -> ProposalRow {
    ProposalRow {
        id: ProposalId { owner: opposite(parent.owner), key: rows.len() as u64 },
        subscription_id,
        prev_proposal_id: Some(parent),
        created_ts,
        expiry_ts,
        accepted: false,
        countered: false,
    }
}

/// Appending a node whose key is its position keeps the tree sound, as long
/// as its parent, if any, was a countered node without children.
proof fn lemma_push_fresh(rows: Seq<ProposalRow>, row: ProposalRow)
    requires
        rows_wf(rows),
        rows.len() < u64::MAX,
        row.id.key == rows.len(),
        !(row.accepted && row.countered),
        parent_ok(rows.push(row), rows.len() as int),
        row.prev_proposal_id is Some ==> forall|j: int|
            0 <= j < rows.len() ==> #[trigger] rows[j].prev_proposal_id != row.prev_proposal_id,
    ensures
        rows_wf(rows.push(row)),
{
    let n = rows.push(row);
    assert forall|i: int| 0 <= i < n.len() implies #[trigger] parent_ok(n, i) by {
        if i < rows.len() {
            assert(parent_ok(rows, i));
        }
    }
    assert forall|i: int, j: int| 0 <= i < n.len() && 0 <= j < n.len() implies #[trigger] siblings_absent(n, i, j) by {
        if i < rows.len() && j < rows.len() {
            assert(siblings_absent(rows, i, j));
        } else if i < rows.len() {
            assert(n[j] == row);
        }
    }
    assert forall|i: int| 0 <= i < n.len() implies (#[trigger] n[i]).id.key == i by {
        if i < rows.len() {
            assert(n[i] == rows[i]);
        }
    }
}

/// Marking a node countered, or accepted, keeps the tree sound as long as the
/// node does not end up with both marks.
proof fn lemma_set_flags(rows: Seq<ProposalRow>, k: int, row: ProposalRow)
    requires
        rows_wf(rows),
        0 <= k < rows.len(),
        row.id == rows[k].id,
        row.prev_proposal_id == rows[k].prev_proposal_id,
        rows[k].countered ==> row.countered,
        !(row.accepted && row.countered),
    ensures
        rows_wf(rows.update(k, row)),
{
    let n = rows.update(k, row);
    assert forall|i: int| 0 <= i < n.len() implies #[trigger] parent_ok(n, i) by {
        assert(parent_ok(rows, i));
    }
    assert forall|i: int, j: int| 0 <= i < n.len() && 0 <= j < n.len() implies #[trigger] siblings_absent(n, i, j) by {
        assert(siblings_absent(rows, i, j));
    }
    assert forall|i: int| 0 <= i < n.len() implies (#[trigger] n[i]).id.key == i by {
        assert(rows[i].id.key == i);
    }
}

impl ProposalStore {
    /// The stored nodes; a node's key is its position.
    pub closed spec fn rows_view(&self) -> Seq<ProposalRow> {
        self.rows@
    }

    /// The stored bodies, beside their nodes.
    pub closed spec fn bodies_view(&self) -> Seq<String> {
        self.bodies@
    }

    pub open spec fn wf(&self) -> bool {
        rows_wf(self.rows_view()) && self.bodies_view().len() == self.rows_view().len()
    }

    pub fn new() -> (r: ProposalStore)
        ensures
            r.wf(),
            r.rows_view().len() == 0,
    {
        ProposalStore { rows: Vec::new(), bodies: Vec::new() }
    }

    /// The stored nodes, in key order.
    pub fn rows(&self) -> (r: &Vec<ProposalRow>)
        ensures
            r@ == self.rows_view(),
    {
        &self.rows
    }

    fn locate(&self, id: ProposalId) -> (r: Option<usize>)
        requires
            self.wf(),
        ensures
            r is Some <==> contains(self.rows_view(), id),
            r is Some ==> r->Some_0 == id.key,
    {
        if id.key < self.rows.len() as u64 && self.rows[id.key as usize].id == id {
            Some(id.key as usize)
        } else {
            None
        }
    }

    /// Stores the root proposal of a subscription's negotiation.
    pub fn save_initial(
        &mut self,
        owner: OwnerType,
        subscription_id: SubscriptionId,
        body: String,
        created_ts: i64,
        expiry_ts: i64,
    ) -> (r: Result<ProposalId, ProposalError>)
        requires
            old(self).wf(),
        ensures
            final(self).wf(),
            r is Ok <==> old(self).rows_view().len() < u64::MAX,
            r is Err ==> r == Err::<ProposalId, ProposalError>(ProposalError::StoreFull),
            r is Ok ==> {
                let id = r->Ok_0;
                &&& id == ProposalId { owner, key: old(self).rows_view().len() as u64 }
                &&& final(self).rows_view() == old(self).rows_view().push(
                    ProposalRow {
                        id,
                        subscription_id,
                        prev_proposal_id: None,
                        created_ts,
                        expiry_ts,
                        accepted: false,
                        countered: false,
                    },
                )
                &&& final(self).bodies_view() == old(self).bodies_view().push(body)
            },
            r is Err ==> *final(self) == *old(self),
    {
        if self.rows.len() as u64 == u64::MAX {
            return Err(ProposalError::StoreFull);
        }
        let id = ProposalId { owner, key: self.rows.len() as u64 };
        let row = ProposalRow {
            id,
            subscription_id,
            prev_proposal_id: None,
            created_ts,
            expiry_ts,
            accepted: false,
            countered: false,
        };
        let ghost before = self.rows@;
        self.rows.push(row);
        self.bodies.push(body);
        proof {
            lemma_push_fresh(before, row);
        }
        Ok(id)
    }

    /// Stores a counter-proposal under `parent_id`, authored by the other side,
    /// and marks the parent countered. Fails when the parent is missing, when
    /// it was already countered, or when it was accepted.
    pub fn save_counter(
        &mut self,
        parent_id: ProposalId,
        subscription_id: SubscriptionId,
        body: String,
        created_ts: i64,
        expiry_ts: i64,
    ) -> (r: Result<ProposalId, ProposalError>)
        requires
            old(self).wf(),
        ensures
            final(self).wf(),
            r is Err <==> counter_error(old(self).rows_view(), parent_id) is Some,
            r is Err ==> r == Err::<ProposalId, ProposalError>(
                counter_error(old(self).rows_view(), parent_id)->Some_0,
            ) && *final(self) == *old(self),
            r is Ok ==> {
                let row = counter_row(old(self).rows_view(), parent_id, subscription_id, created_ts, expiry_ts);
                &&& r->Ok_0 == row.id
                &&& final(self).rows_view() == with_countered(old(self).rows_view(), parent_id).push(row)
                &&& final(self).bodies_view() == old(self).bodies_view().push(body)
            },
    {
        let k = match self.locate(parent_id) {
            None => return Err(ProposalError::ParentNotFound(parent_id)),
            Some(k) => k,
        };
        let parent = self.rows[k];
        if parent.countered {
            return Err(ProposalError::AlreadyCountered(parent_id));
        }
        if parent.accepted {
            return Err(ProposalError::AlreadyAccepted(parent_id));
        }
        if self.rows.len() as u64 == u64::MAX {
            return Err(ProposalError::StoreFull);
        }
        let ghost before = self.rows@;
        self.rows.set(k, ProposalRow { countered: true, ..parent });
        proof {
            lemma_set_flags(before, k as int, ProposalRow { countered: true, ..parent });
        }
        let ghost marked = self.rows@;
        let id = ProposalId { owner: opposite_owner(parent_id.owner), key: self.rows.len() as u64 };
        let row = ProposalRow {
            id,
            subscription_id,
            prev_proposal_id: Some(parent_id),
            created_ts,
            expiry_ts,
            accepted: false,
            countered: false,
        };
        proof {
            assert forall|j: int| 0 <= j < marked.len() implies #[trigger] marked[j].prev_proposal_id
                != row.prev_proposal_id by {
                assert(parent_ok(before, j));
            }
        }
        self.rows.push(row);
        self.bodies.push(body);
        proof {
            lemma_push_fresh(marked, row);
        }
        Ok(id)
    }

    /// The stored node of `id`, if any.
    pub fn get(&self, id: ProposalId) -> (r: Option<ProposalRow>)
        requires
            self.wf(),
        ensures
            r is Some <==> contains(self.rows_view(), id),
            r is Some ==> r->Some_0 == self.rows_view()[id.key as int],
    {
        match self.locate(id) {
            Some(k) => Some(self.rows[k]),
            None => None,
        }
    }

    /// The body stored with `id`, if any.
    pub fn body(&self, id: ProposalId) -> (r: Option<&String>)
        requires
            self.wf(),
        ensures
            r is Some <==> contains(self.rows_view(), id),
            r is Some ==> *r->Some_0 == self.bodies_view()[id.key as int],
    {
        match self.locate(id) {
            Some(k) => Some(&self.bodies[k]),
            None => None,
        }
    }

    /// Whether `id` has been countered; `false` for an unknown id.
    pub fn has_counter(&self, id: ProposalId) -> (r: bool)
        requires
            self.wf(),
        ensures
            r == has_counter_spec(self.rows_view(), id),
    {
        match self.locate(id) {
            Some(k) => self.rows[k].countered,
            None => false,
        }
    }

    /// Marks `id` accepted; refused once it has been countered.
    pub fn mark_accepted(&mut self, id: ProposalId) -> (r: Result<(), ProposalError>)
        requires
            old(self).wf(),
        ensures
            final(self).wf(),
            r is Err <==> accept_error(old(self).rows_view(), id) is Some,
            r is Err ==> r == Err::<(), ProposalError>(accept_error(old(self).rows_view(), id)->Some_0)
                && *final(self) == *old(self),
            r is Ok ==> final(self).rows_view() == with_accepted(old(self).rows_view(), id) && final(self).bodies_view()
                == old(self).bodies_view(),
    {
        let k = match self.locate(id) {
            None => return Err(ProposalError::NotFound(id)),
            Some(k) => k,
        };
        let row = self.rows[k];
        if row.countered {
            return Err(ProposalError::AlreadyCountered(id));
        }
        proof {
            lemma_set_flags(self.rows_view(), k as int, ProposalRow { accepted: true, ..row });
        }
        self.rows.set(k, ProposalRow { accepted: true, ..row });
        Ok(())
    }

    /// Marks `id` countered; refused once it has been accepted.
    pub fn mark_countered(&mut self, id: ProposalId) -> (r: Result<(), ProposalError>)
        requires
            old(self).wf(),
        ensures
            final(self).wf(),
            r is Err <==> mark_counter_error(old(self).rows_view(), id) is Some,
            r is Err ==> r == Err::<(), ProposalError>(mark_counter_error(old(self).rows_view(), id)->Some_0)
                && *final(self) == *old(self),
            r is Ok ==> final(self).rows_view() == with_countered(old(self).rows_view(), id) && final(self).bodies_view()
                == old(self).bodies_view(),
    {
        let k = match self.locate(id) {
            None => return Err(ProposalError::NotFound(id)),
            Some(k) => k,
        };
        let row = self.rows[k];
        if row.accepted {
            return Err(ProposalError::AlreadyAccepted(id));
        }
        proof {
            lemma_set_flags(self.rows_view(), k as int, ProposalRow { countered: true, ..row });
        }
        self.rows.set(k, ProposalRow { countered: true, ..row });
        Ok(())
    }
}

/// No stored proposal is both accepted and countered.
pub proof fn lemma_accepted_excludes_countered(rows: Seq<ProposalRow>, i: int)
    requires
        rows_wf(rows),
        0 <= i < rows.len(),
    ensures
        !(rows[i].accepted && rows[i].countered),
{
}

/// A successful counter leaves the parent countered, and a second counter of
/// the same parent fails with `AlreadyCountered`.
pub proof fn lemma_counter_once(
    rows: Seq<ProposalRow>,
    parent: ProposalId,
    subscription_id: SubscriptionId,
    created_ts: i64,
    expiry_ts: i64,
)
    requires
        rows_wf(rows),
        counter_error(rows, parent) is None,
    ensures
        ({
            let after = with_countered(rows, parent).push(
                counter_row(rows, parent, subscription_id, created_ts, expiry_ts),
            );
            &&& has_counter_spec(after, parent)
            &&& counter_error(after, parent) == Some(ProposalError::AlreadyCountered(parent))
        }),
{
}

/// A proposal has at most one child, so at most one accepted child.
pub proof fn lemma_one_child(rows: Seq<ProposalRow>, i: int, j: int)
    requires
        rows_wf(rows),
        0 <= i < rows.len(),
        0 <= j < rows.len(),
        rows[i].prev_proposal_id is Some,
        rows[i].prev_proposal_id == rows[j].prev_proposal_id,
    ensures
        i == j,
{
    assert(siblings_absent(rows, i, j));
}

} // verus!
