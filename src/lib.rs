//! A mail-store protocol engine: resolving client addresses, tracking changes,
//! projecting FETCH attributes out of parsed message structures, and applying
//! label changes with optimistic concurrency.
//!
//! - `mailbox`: sequence numbers and UIDs of a selected mailbox, kept in step
//!   with the change log.
//! - `changes`: change-log entries, the modification counter, and the "changed
//!   since" / "unchanged since" filters.
//! - `structure` and `summary`: the parsed message tree, section and binary
//!   extraction, envelope and structural summary.
//! - `fetch`: which attributes a FETCH needs and their values for one record.
//! - `labels` and `store`: label operations, the optimistic write and its retry
//!   rule, and the STORE command as a state machine.
//! - `laws`: properties that relate these operations.
//! - `codec`, `directory`, `folder`, `queue`, `sharing`, `sieve`, `dav`: the
//!   smaller pieces of the server that the engine lives in.

pub mod changes;
pub mod codec;
pub mod dav;
pub mod directory;
pub mod fetch;
pub mod folder;
pub mod labels;
pub mod laws;
pub mod mailbox;
pub mod queue;
pub mod sharing;
pub mod sieve;
pub mod store;
pub mod structure;
pub mod summary;
