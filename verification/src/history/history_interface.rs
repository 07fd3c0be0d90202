//! Undoing and redoing against a graph.

use vstd::prelude::*;

use crate::common::{GraphError, GraphErrorView, GraphTraits};
use crate::graph::reactive_node::last_action::ActionData;
use crate::graph::view_graph::{GraphView, ViewGraph};
use crate::history::history_item::{HistoryItem, HistoryItemView};
use crate::history::history_store::{HistoryStore, HistoryStoreView};

verus! {

#[derive(Debug, Clone)]
pub struct HistoryInterface<T, E, A> {
    pub history: HistoryStore<T, E, A>,
}

impl<T: View, E: View, A: View> View for HistoryInterface<T, E, A> {
    type V = HistoryStoreView<T::V, E::V, A::V>;

    open spec fn view(&self) -> HistoryStoreView<T::V, E::V, A::V> {
        self.history@
    }
}

/// The graph after `item` is applied by `action`, with the tag of `item` as
/// the secondary action.
pub open spec fn spec_replay<TV, EV, AV>(
    graph: GraphView<TV, EV, AV>,
    item: HistoryItemView<TV, EV, AV>,
    action: AV,
) -> Result<GraphView<TV, EV, AV>, GraphErrorView> {
    graph.spec_apply(
        item.blueprint,
        ActionData { main_action: action, secondary_action: Some(item.action_data) },
    )
}

impl<T: GraphTraits, E: GraphTraits, A: GraphTraits> HistoryInterface<T, E, A> {
    pub fn new(history_store: HistoryStore<T, E, A>) -> (r: Self)
        ensures
            r@ == history_store@,
    {
        HistoryInterface { history: history_store }
    }

    fn replay(graph: &mut ViewGraph<T, E, A>, item: HistoryItem<T, E, A>, action: A) -> (r: Result<
        (),
        GraphError,
    >)
        ensures
            match r {
                Ok(_) => spec_replay(old(graph)@, item@, action@) == Ok::<
                    GraphView<T::V, E::V, A::V>,
                    GraphErrorView,
                >(final(graph)@),
                Err(e) => spec_replay(old(graph)@, item@, action@) == Err::<
                    GraphView<T::V, E::V, A::V>,
                    GraphErrorView,
                >(e@) && final(graph)@ == old(graph)@,
            },
    {
        let action_data = ActionData::new(action).set_secondary_action(item.action_data);
        graph.apply(item.blueprint, action_data)
    }

    /// Undoes the last applied transaction on `graph`. Without one nothing
    /// happens. Where the undoing transaction cannot be applied, the graph
    /// stays as it was; the history has moved on all the same.
    pub fn undo(&mut self, graph: &mut ViewGraph<T, E, A>, undo_action: A) -> (r: Result<
        (),
        GraphError,
    >)
        ensures
            final(self)@ == old(self)@.spec_undo(),
            old(self)@.undo_stack.len() == 0 ==> r is Ok && final(graph)@ == old(graph)@,
            old(self)@.undo_stack.len() > 0 ==> match r {
                Ok(_) => spec_replay(
                    old(graph)@,
                    old(self)@.undo_stack.last().spec_history_invert(),
                    undo_action@,
                ) == Ok::<GraphView<T::V, E::V, A::V>, GraphErrorView>(final(graph)@),
                Err(e) => spec_replay(
                    old(graph)@,
                    old(self)@.undo_stack.last().spec_history_invert(),
                    undo_action@,
                ) == Err::<GraphView<T::V, E::V, A::V>, GraphErrorView>(e@) && final(graph)@
                    == old(graph)@,
            },
    {
        match self.history.undo() {
            Some(undo_item) => Self::replay(graph, undo_item, undo_action),
            None => Ok(()),
        }
    }

    /// Does the last undone transaction again on `graph`. Without one
    /// nothing happens.
    pub fn redo(&mut self, graph: &mut ViewGraph<T, E, A>, redo_action: A) -> (r: Result<
        (),
        GraphError,
    >)
        ensures
            final(self)@ == old(self)@.spec_redo(),
            old(self)@.redo_stack.len() == 0 ==> r is Ok && final(graph)@ == old(graph)@,
            old(self)@.redo_stack.len() > 0 ==> match r {
                Ok(_) => spec_replay(
                    old(graph)@,
                    old(self)@.redo_stack.last().spec_history_invert(),
                    redo_action@,
                ) == Ok::<GraphView<T::V, E::V, A::V>, GraphErrorView>(final(graph)@),
                Err(e) => spec_replay(
                    old(graph)@,
                    old(self)@.redo_stack.last().spec_history_invert(),
                    redo_action@,
                ) == Err::<GraphView<T::V, E::V, A::V>, GraphErrorView>(e@) && final(graph)@
                    == old(graph)@,
            },
    {
        match self.history.redo() {
            Some(redo_item) => Self::replay(graph, redo_item, redo_action),
            None => Ok(()),
        }
    }

    /// Records a transaction that was applied.
    pub fn push(&mut self, item: HistoryItem<T, E, A>)
        ensures
            final(self)@ == old(self)@.spec_push(item@),
    {
        self.history.push(item);
    }
}

} // verus!
