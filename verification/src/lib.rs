//! The verified core of a bridge between a ledger and a confidential runtime.
//!
//! The bridge program has two sides, and this library holds what is decided on each of
//! them, with contracts that Verus checks:
//!
//! - Towards its clients the program speaks JSON-RPC 2.0. [`batches`] keeps the
//!   messages that have been received and not yet answered: it hands their calls out
//!   one by one, takes the answers in whatever order they come, and puts the response
//!   of a message together once all of its requests have been answered. [`batch`] is
//!   the state of a single message, [`common`] and [`notification`] are the protocol
//!   objects, [`scan`] and [`stability`] say what the engine guarantees across calls,
//!   and [`ticket_index`] is the one place where the engine relies on a hash table
//!   that Verus does not look into.
//! - Towards the ledger the program polls for events and transactions. [`bridge`]
//!   decides which of them are new and when the trusted state has to be fetched.

pub mod batch;
pub mod batches;
pub mod bridge;
pub mod common;
pub mod notification;
pub mod scan;
pub mod stability;
pub mod ticket_index;
