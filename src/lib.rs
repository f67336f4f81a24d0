//! Market and agreement core of a compute marketplace: owner-tagged
//! identifiers, the agreement state machine, the proposal store, the
//! per-subscription event queue, the agreement store with its event log, and
//! the provider-side negotiation engine.

pub mod ids;
pub mod state;
pub mod proposal_store;
pub mod events;
pub mod agreement;
pub mod proposal;
pub mod market;
pub mod status;
