//! One node of the committed graph: how it is read, built and changed.

pub mod build_reactive_node;
pub mod last_action;
pub mod read_reactive_node;
pub mod utils;
pub mod write_reactive_node;
