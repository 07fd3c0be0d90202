//! The transactions that were applied, kept so that they can be undone and
//! done again.

pub mod history_interface;
pub mod history_item;
pub mod history_store;
