//! An in-memory graph store with staged, transactional mutation and
//! quantified path queries.
//!
//! Values are described by their views: a set is a sequence without regard to
//! how it is stored, a payload is whatever its [`common::GraphValue`] view
//! says it is. Every executable function states its result over those views.

pub mod blueprint;
pub mod collections;
pub mod common;
pub mod graph;
pub mod history;
pub mod hooks;
pub mod laws;
pub mod traversal;
