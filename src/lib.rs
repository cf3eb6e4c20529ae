//! The decision core of an order-matching service run by independent operators: a
//! deterministic matcher, the canonical encoding and digest that operators sign, and the
//! aggregator's per-task ledger that turns signed proposals into one quorum-backed response.

pub mod encoding;
pub mod job;
pub mod ledger;
pub mod order;
pub mod signer;
