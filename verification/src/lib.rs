//! Verified core of the creator event manager: event, match and prediction
//! records, scoring and ranking rules, match listing, and the decisions made
//! when an event's prize pool is finalized, claimed and clawed back.
//!
//! Ledger storage, authorization, token transfers and event publication are
//! performed by the contract shell around this library; every function here
//! works on plain values.

pub mod address;
pub mod storage_types;
pub mod event;
pub mod matches;
pub mod storage;
pub mod finalize;
