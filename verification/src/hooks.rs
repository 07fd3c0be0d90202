//! The store as a host application uses it: one graph, its history, and
//! the transactions that go through both.

pub mod use_routable;
pub mod use_routable_store;

pub use use_routable::{ProcessBlueprintReturn, UseRoutableReturn};
pub use use_routable_store::{use_routable_store, GraphLock, GraphSettings};
