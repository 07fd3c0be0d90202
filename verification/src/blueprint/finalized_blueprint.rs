//! A transaction that is ready to be applied.

use vstd::prelude::*;

use crate::blueprint::delete_node::{DeleteNode, DeleteNodeView};
use crate::blueprint::finalized_update_node::{FinalizedUpdateNode, FinalizedUpdateNodeView};
use crate::blueprint::new_node::{NewNode, NewNodeView};
use crate::collections::seq_model::map_values_seq;
use crate::collections::VecMap;
use crate::common::{GraphTraits, Uid};

verus! {

#[derive(Debug, Clone)]
pub struct FinalizedBlueprint<T, E> {
    pub new_nodes: VecMap<Uid, NewNode<T, E>>,
    pub update_nodes: VecMap<Uid, FinalizedUpdateNode<T, E>>,
    pub delete_nodes: VecMap<Uid, DeleteNode<T, E>>,
}

/// What a [`FinalizedBlueprint`] holds.
pub struct FinalizedBlueprintView<TV, EV> {
    pub new_nodes: Seq<(Uid, NewNodeView<TV, EV>)>,
    pub update_nodes: Seq<(Uid, FinalizedUpdateNodeView<TV, EV>)>,
    pub delete_nodes: Seq<(Uid, DeleteNodeView<TV, EV>)>,
}

impl<T: View, E: View> View for FinalizedBlueprint<T, E> {
    type V = FinalizedBlueprintView<T::V, E::V>;

    open spec fn view(&self) -> FinalizedBlueprintView<T::V, E::V> {
        FinalizedBlueprintView {
            new_nodes: self.new_nodes@,
            update_nodes: self.update_nodes@,
            delete_nodes: self.delete_nodes@,
        }
    }
}

impl<TV, EV> FinalizedBlueprintView<TV, EV> {
    /// The transaction that undoes this one: creations become deletions,
    /// deletions creations, and every change its opposite.
    pub open spec fn spec_invert_blueprint(self) -> Self {
        FinalizedBlueprintView {
            new_nodes: map_values_seq(
                self.delete_nodes,
                |n: DeleteNodeView<TV, EV>| n.spec_history_invert(),
            ),
            update_nodes: map_values_seq(
                self.update_nodes,
                |n: FinalizedUpdateNodeView<TV, EV>| n.spec_history_invert(),
            ),
            delete_nodes: map_values_seq(self.new_nodes, |n: NewNodeView<TV, EV>| n.spec_history_invert()),
        }
    }
}

impl<T: GraphTraits, E: GraphTraits> FinalizedBlueprint<T, E> {
    /// A transaction with the same contents.
    pub fn duplicate(&self) -> (r: Self)
        ensures
            r@ == self@,
    {
        FinalizedBlueprint {
            new_nodes: self.new_nodes.duplicate_with(
                NewNode::<T, E>::duplicate,
            ),
            update_nodes: self.update_nodes.duplicate_with(
                FinalizedUpdateNode::<T, E>::duplicate,
            ),
            delete_nodes: self.delete_nodes.duplicate_with(
                DeleteNode::<T, E>::duplicate,
            ),
        }
    }

    /// The transaction that undoes this one.
    pub fn invert_blueprint(&self) -> (r: Self)
        ensures
            r@ == self@.spec_invert_blueprint(),
    {
        let inverted_update_nodes = self.update_nodes.map_values(
            FinalizedUpdateNode::<T, E>::history_invert,
            Ghost(|n: FinalizedUpdateNodeView<T::V, E::V>| n.spec_history_invert()),
        );
        let inverted_delete_nodes = self.delete_nodes.map_values(
            DeleteNode::<T, E>::history_invert,
            Ghost(|n: DeleteNodeView<T::V, E::V>| n.spec_history_invert()),
        );
        let inverted_new_nodes = self.new_nodes.map_values(
            NewNode::<T, E>::history_invert,
            Ghost(|n: NewNodeView<T::V, E::V>| n.spec_history_invert()),
        );
        FinalizedBlueprint {
            new_nodes: inverted_delete_nodes,
            update_nodes: inverted_update_nodes,
            delete_nodes: inverted_new_nodes,
        }
    }
}

} // verus!
