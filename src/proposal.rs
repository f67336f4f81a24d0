use vstd::prelude::*;

verus! {

/// The JSON value type of serde_json, carried through unread.
#[verifier::external_type_specification]
#[verifier::external_body]
pub struct ExJsonValue(serde_json::Value);

/// A proposal as exchanged with the counterparty: its properties, its
/// constraints, and the proposal it answers.
pub struct Proposal {
    pub id: String,
    pub properties: serde_json::Value,
    pub constraints: String,
    pub prev_proposal_id: Option<String>,
}

impl Proposal {
    /// A proposal that answers no earlier one.
    pub fn new(id: String, properties: serde_json::Value, constraints: String) -> (r: Proposal)
        ensures
            r.id == id,
            r.properties == properties,
            r.constraints == constraints,
            r.prev_proposal_id is None,
    {
        Proposal { id, properties, constraints, prev_proposal_id: None }
    }
}

} // verus!
