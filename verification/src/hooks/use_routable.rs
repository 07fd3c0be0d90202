//! A store at work.

use vstd::prelude::*;

use crate::blueprint::build_blueprint::{
    AllowedRenderEdgeSpecifier, BuildBlueprint, BuildBlueprintView,
};

use crate::blueprint::new_node::TempId;
use crate::collections::seq_model::{lookup, view_all};
use crate::collections::uid_index::{uid_map_clone, uid_map_entries, UidMap};
use crate::common::{GraphError, GraphErrorView, GraphTraits, GraphValue, Uid};
use crate::graph::reactive_node::last_action::ActionData;
use crate::graph::reactive_node::read_reactive_node::ReadReactiveNode;
use crate::graph::view_graph::{node_missing, GraphView, ViewGraph};
use crate::history::history_interface::HistoryInterface;
use crate::history::history_item::{HistoryItem, HistoryItemView};
use crate::history::history_store::HistoryStoreView;
use crate::hooks::use_routable_store::{GraphLock, GraphSettings};
use crate::traversal::traversal_descriptor::{TraversalDescriptor, TraversalDescriptorView};
use crate::traversal::traversal_result::TraversalResult;

verus! {

/// What processing a transaction hands back: the node behind each alias,
/// or the error that kept the transaction from being applied.
pub type ProcessBlueprintReturn = Result<UidMap, GraphError>;

/// A graph with its settings, its lock and its history.
#[derive(Debug)]
pub struct UseRoutableReturn<T, E, A> {
    pub graph: ViewGraph<T, E, A>,
    pub settings: GraphSettings<E>,
    pub graph_lock: GraphLock,
    pub history: HistoryInterface<T, E, A>,
}

/// What a store holds.
pub struct StoreView<TV, EV, AV> {
    pub graph: GraphView<TV, EV, AV>,
    pub render_edge_types: Option<Seq<AllowedRenderEdgeSpecifier<EV>>>,
    pub is_locked: bool,
    pub history: HistoryStoreView<TV, EV, AV>,
}

impl<T: View, E: View, A: View> View for UseRoutableReturn<T, E, A> {
    type V = StoreView<T::V, E::V, A::V>;

    open spec fn view(&self) -> StoreView<T::V, E::V, A::V> {
        StoreView {
            graph: self.graph@,
            render_edge_types: crate::blueprint::finalize::view_specifiers(
                self.settings.render_edge_types,
            ),
            is_locked: self.graph_lock.is_locked,
            history: self.history@,
        }
    }
}

impl<TV, EV, AV> StoreView<TV, EV, AV> {
    /// The store after a transaction, or the error that kept it from
    /// being applied: the first error of finalizing, or the error of
    /// applying. An applied transaction is recorded in the history, and the
    /// lock is open afterwards.
    pub open spec fn spec_process(
        self,
        blueprint: BuildBlueprintView<TV, EV>,
        action: AV,
        entry_point: Option<TempId>,
    ) -> Result<Self, GraphErrorView> {
        match blueprint.spec_finalize(self.graph.nodes, self.render_edge_types, entry_point) {
            Err(errors) => Err(errors[0]),
            Ok(sealed) => match self.graph.spec_apply(
                sealed,
                ActionData { main_action: action, secondary_action: None },
            ) {
                Err(e) => Err(e),
                Ok(graph) => Ok(
                    StoreView {
                        graph,
                        history: self.history.spec_push(
                            HistoryItemView { blueprint: sealed, action_data: action },
                        ),
                        is_locked: false,
                        ..self
                    },
                ),
            },
        }
    }
}

impl<T: GraphTraits, E: GraphTraits, A: GraphTraits> UseRoutableReturn<T, E, A> {
    /// The node under `id`.
    pub fn get_node(&self, id: Uid) -> (r: Result<&ReadReactiveNode<T, E, A>, GraphError>)
        ensures
            match r {
                Ok(node) => lookup(self@.graph.nodes, id) == Some(node@),
                Err(e) => lookup(self@.graph.nodes, id) is None && e@ == node_missing(id),
            },
    {
        self.graph.get_node(&id)
    }

    fn process(
        &mut self,
        blueprint: BuildBlueprint<T, E>,
        action_data: A,
        entry_point_temp_id: Option<TempId>,
    ) -> (r: ProcessBlueprintReturn)
        ensures
            match r {
                Ok(aliases) => old(self)@.spec_process(
                    blueprint@,
                    action_data@,
                    entry_point_temp_id,
                ) == Ok::<StoreView<T::V, E::V, A::V>, GraphErrorView>(final(self)@)
                    && uid_map_entries(aliases) == blueprint@.temp_id_map,
                Err(e) => old(self)@.spec_process(blueprint@, action_data@, entry_point_temp_id)
                    == Err::<StoreView<T::V, E::V, A::V>, GraphErrorView>(e@) && final(self)@
                    == old(self)@,
            },
    {
        let temp_id_map = uid_map_clone(&blueprint.temp_id_map);
        let finalized_blueprint = match blueprint.finalize(
            &self.graph,
            self.settings.render_edge_types(),
            entry_point_temp_id,
        ) {
            Ok(sealed) => sealed,
            Err(errors) => {
                let mut errors = errors;
                assert(view_all(errors@).len() > 0);
                let first = errors.swap_remove(0);
                return Err(first);
            },
        };
        let was_locked = self.graph_lock.is_locked;
        self.graph_lock.lock();
        let applied = self.graph.apply(
            finalized_blueprint.duplicate(),
            ActionData::new(action_data.duplicate()),
        );
        match applied {
            Err(e) => {
                self.graph_lock.is_locked = was_locked;
                Err(e)
            },
            Ok(_) => {
                self.graph_lock.unlock();
                self.history.push(HistoryItem { blueprint: finalized_blueprint, action_data });
                Ok(temp_id_map)
            },
        }
    }

    /// Finalizes `blueprint` against the graph, applies it and records it
    /// in the history. Where that fails, store and history stay as they
    /// were.
    pub fn process_blueprint(&mut self, blueprint: BuildBlueprint<T, E>, action_data: A) -> (r:
        ProcessBlueprintReturn)
        ensures
            match r {
                Ok(aliases) => old(self)@.spec_process(blueprint@, action_data@, None) == Ok::<
                    StoreView<T::V, E::V, A::V>,
                    GraphErrorView,
                >(final(self)@) && uid_map_entries(aliases) == blueprint@.temp_id_map,
                Err(e) => old(self)@.spec_process(blueprint@, action_data@, None) == Err::<
                    StoreView<T::V, E::V, A::V>,
                    GraphErrorView,
                >(e@) && final(self)@ == old(self)@,
            },
    {
        self.process(blueprint, action_data, None)
    }

    /// Like [`Self::process_blueprint`], with the node behind
    /// `entry_point_temp_id` as the root of what the transaction creates.
    pub fn initiate_graph(
        &mut self,
        blueprint: BuildBlueprint<T, E>,
        action_data: A,
        entry_point_temp_id: TempId,
    ) -> (r: ProcessBlueprintReturn)
        ensures
            match r {
                Ok(aliases) => old(self)@.spec_process(
                    blueprint@,
                    action_data@,
                    Some(entry_point_temp_id),
                ) == Ok::<StoreView<T::V, E::V, A::V>, GraphErrorView>(final(self)@)
                    && uid_map_entries(aliases) == blueprint@.temp_id_map,
                Err(e) => old(self)@.spec_process(
                    blueprint@,
                    action_data@,
                    Some(entry_point_temp_id),
                ) == Err::<StoreView<T::V, E::V, A::V>, GraphErrorView>(e@) && final(self)@
                    == old(self)@,
            },
    {
        self.process(blueprint, action_data, Some(entry_point_temp_id))
    }

    /// A query that starts at node `start_id`.
    pub fn traverse_search(&self, start_id: Uid) -> (r: TraversalDescriptor<E>)
        ensures
            r@ == (TraversalDescriptorView::<E::V> { start_node: start_id, steps: Seq::empty() }),
    {
        TraversalDescriptor::new(start_id)
    }

    /// Runs a query against the graph of the store.
    pub fn execute(&self, descriptor: &TraversalDescriptor<E>) -> (r: Option<
        TraversalResult<T, E, A>,
    >)
        ensures
            match r {
                Some(found) => descriptor@.spec_execute(self@.graph.nodes) == Some(found@),
                None => descriptor@.spec_execute(self@.graph.nodes) is None,
            },
    {
        descriptor.execute(&self.graph)
    }
}

} // verus!
