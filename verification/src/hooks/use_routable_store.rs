//! The settings of a store, its lock, and the way to set one up.

use vstd::prelude::*;

use crate::blueprint::build_blueprint::AllowedRenderEdgeSpecifier;
use crate::blueprint::finalize::view_specifiers;
use crate::collections::seq_model::{lemma_take_all, lemma_take_step, lemma_view_all_push, view_all};
use crate::common::{GraphTraits, GraphValue};
use crate::graph::view_graph::{GraphView, ViewGraph};
use crate::history::history_interface::HistoryInterface;
use crate::history::history_store::HistoryStore;
use crate::hooks::use_routable::UseRoutableReturn;

verus! {

/// The advisory lock around the application of a transaction.
#[derive(Debug, Clone, Copy, PartialEq, Eq)]
pub struct GraphLock {
    pub is_locked: bool,
}

impl GraphLock {
    pub fn lock(&mut self)
        ensures
            final(self).is_locked,
    {
        self.is_locked = true;
    }

    pub fn unlock(&mut self)
        ensures
            !final(self).is_locked,
    {
        self.is_locked = false;
    }
}

/// What a store is set up with.
#[derive(Debug, Clone)]
pub struct GraphSettings<E> {
    /// The edges that may render, in order of preference.
    pub render_edge_types: Option<Vec<AllowedRenderEdgeSpecifier<E>>>,
}

impl<E: GraphTraits> GraphSettings<E> {
    /// The same specifiers once more.
    pub fn render_edge_types(&self) -> (r: Option<Vec<AllowedRenderEdgeSpecifier<E>>>)
        ensures
            view_specifiers(r) == view_specifiers(self.render_edge_types),
    {
        match &self.render_edge_types {
            None => None,
            Some(types) => {
                let mut r: Vec<AllowedRenderEdgeSpecifier<E>> = Vec::new();
                let mut i: usize = 0;
                assert(view_all(r@) =~= view_all(types@).take(0));
                while i < types.len()
                    invariant
                        i <= types.len(),
                        view_all(r@) == view_all(types@).take(i as int),
                    decreases types.len() - i,
                {
                    let copy = AllowedRenderEdgeSpecifier {
                        edge_type: types[i].edge_type.duplicate(),
                        dir: types[i].dir,
                    };
                    proof {
                        lemma_view_all_push(r@, copy);
                        lemma_take_step(view_all(types@), i as int);
                    }
                    r.push(copy);
                    i += 1;
                }
                proof {
                    lemma_take_all(view_all(types@));
                }
                Some(r)
            },
        }
    }
}

/// Sets up a store with an empty graph and an empty history.
pub fn use_routable_store<T: GraphTraits, E: GraphTraits, A: GraphTraits>(
    render_edge_types: Option<Vec<AllowedRenderEdgeSpecifier<E>>>,
) -> (r: UseRoutableReturn<T, E, A>)
    ensures
        r@.graph == GraphView::<T::V, E::V, A::V>::empty(),
        r@.history.undo_stack.len() == 0,
        r@.history.redo_stack.len() == 0,
        r@.render_edge_types == view_specifiers(render_edge_types),
        !r@.is_locked,
{
    UseRoutableReturn {
        graph: ViewGraph::new(),
        settings: GraphSettings { render_edge_types },
        graph_lock: GraphLock { is_locked: false },
        history: HistoryInterface::new(HistoryStore::new()),
    }
}

} // verus!
