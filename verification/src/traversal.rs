//! Path queries over the committed graph.
//!
//! A query is a start node and a list of steps. Each step follows edges
//! that match its pattern, as many as its count allows. On a graph with
//! cycles a step never enters a node twice on one path, so that no path
//! within a step has more edges than the graph has nodes; a later step may
//! come back to a node that an earlier step has passed. The result lists,
//! step by step and start node by start node, the nodes at which the step
//! ended and from which the rest of the query succeeded.

pub mod traversal_descriptor;
pub mod traversal_edge;
pub mod traversal_executor;
pub mod traversal_node;
pub mod traversal_result;
pub mod traversal_step;
pub mod traversal_step_result;
