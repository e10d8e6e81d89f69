//! A governance and incentive engine: accounts lock funds for a chosen
//! duration to obtain voting power, spend that power on the proposals of a
//! round, and share the tributes attached to the winning proposal.
//!
//! Every ledger lives in plain in-memory tables whose invariants are stated
//! as well-formedness predicates and proved to be preserved by each
//! operation.
pub mod types;
pub mod power;
pub mod score_index;
pub mod model;
pub mod parts;
pub mod hub;
pub mod tribute;
pub mod contract;
