//! The committed graph: its nodes and the store that holds them.

pub mod reactive_node;
pub mod view_graph;
