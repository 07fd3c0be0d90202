//! What holds of the library as a whole, stated over the views that its
//! functions are specified with and proved from the specifications alone.
//!
//! - [`merge`]: merging staged records does not depend on how the merges are
//!   grouped.
//! - [`symmetry`], [`pairing`] and [`balance`]: a transaction that treats
//!   both sides of every edge alike keeps a graph in which every edge has
//!   its mirror; a transaction that is built by wiring new nodes and nodes
//!   of the graph is such a transaction, also where it deletes nodes and
//!   removes edges, as long as it adds no edge to a node that it deletes.
//! - [`render`], [`undisplaced`] and [`single`]: a transaction that
//!   displaces no node gives every new node exactly one render edge, and
//!   the root none; and whatever a transaction deletes, removes and
//!   displaces, no node ends with more than one render edge.
//! - [`round_trip`]: a transaction that fits a graph is undone by its
//!   inverse.
//! - [`cascade`] and [`reach`]: a finalized transaction deletes the nodes
//!   that were marked, and of the nodes that lost their render edge exactly
//!   those that no chain of edges that may render leads to.
//! - [`edges`], [`nodes`] and [`graphs`]: what a transaction does to one
//!   list of edges, one node, and the nodes of a graph.

pub mod balance;
pub mod cascade;
pub mod edges;
pub mod graphs;
pub mod merge;
pub mod nodes;
pub mod pairing;
pub mod reach;
pub mod render;
pub mod round_trip;
pub mod single;
pub mod symmetry;
pub mod undisplaced;
