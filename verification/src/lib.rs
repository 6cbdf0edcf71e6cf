//! A timeline reconciliation and pagination engine for a single chat room
//! view.
//!
//! The engine ingests raw room events that arrive out of order (from an
//! initial backward fetch, from live updates, and from member lookups),
//! keeps them deduplicated and chronologically ordered, and rebuilds a
//! display-ready message list after every mutation.  Pagination, member
//! resolution and read-marker reporting are driven through small state
//! machines that never issue duplicate requests for the same resource.
//!
//! All network and terminal work happens outside this crate: the engine's
//! entrypoints take plain values and return the actions (fetches, lookups,
//! read receipts) that the surrounding I/O layer should perform.

use vstd::prelude::*;

pub mod assemble;
pub mod chat;
pub mod event;
pub mod laws;
pub mod member;
pub mod message;
pub mod order;
pub mod pagination;
pub mod read_marker;
pub mod selection;
pub mod store;
pub mod text;

verus! {

/// Which kind of synchronisation pass the backend is running: the first
/// full sync after login, or a catch-up from a stored token.
pub enum SyncType {
    Initial,
    Latest,
}

} // verus!
