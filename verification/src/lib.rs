//! Execution core of a ledger shell: gas metering, a staged write log over a
//! key-value store, verifier discovery, validity-predicate aggregation and the
//! block lifecycle.

pub mod address;
pub mod event;
pub mod gas;
pub mod hash;
pub mod ibc;
pub mod key;
pub mod keymap;
pub mod order;
pub mod shell;
pub mod storage;
pub mod text;
pub mod tx;
pub mod vp;
pub mod wallet;
pub mod wire;
pub mod write_log;
