//! One applied transaction.

use vstd::prelude::*;

use crate::blueprint::{FinalizedBlueprint, FinalizedBlueprintView};
use crate::common::GraphTraits;

verus! {

/// A transaction and the tag of the action that it was applied with.
#[derive(Debug, Clone)]
pub struct HistoryItem<T, E, A> {
    pub blueprint: FinalizedBlueprint<T, E>,
    pub action_data: A,
}

/// What a [`HistoryItem`] holds.
pub struct HistoryItemView<TV, EV, AV> {
    pub blueprint: FinalizedBlueprintView<TV, EV>,
    pub action_data: AV,
}

impl<T: View, E: View, A: View> View for HistoryItem<T, E, A> {
    type V = HistoryItemView<T::V, E::V, A::V>;

    open spec fn view(&self) -> HistoryItemView<T::V, E::V, A::V> {
        HistoryItemView { blueprint: self.blueprint@, action_data: self.action_data@ }
    }
}

impl<TV, EV, AV> HistoryItemView<TV, EV, AV> {
    /// The item whose transaction undoes the one of this item.
    pub open spec fn spec_history_invert(self) -> Self {
        HistoryItemView {
            blueprint: self.blueprint.spec_invert_blueprint(),
            action_data: self.action_data,
        }
    }
}

impl<T: GraphTraits, E: GraphTraits, A: GraphTraits> HistoryItem<T, E, A> {
    /// The same item once more.
    pub fn duplicate(&self) -> (r: Self)
        ensures
            r@ == self@,
    {
        HistoryItem {
            blueprint: self.blueprint.duplicate(),
            action_data: self.action_data.duplicate(),
        }
    }

    /// The item whose transaction undoes the one of this item.
    pub fn history_invert(&self) -> (r: Self)
        ensures
            r@ == self@.spec_history_invert(),
    {
        HistoryItem {
            blueprint: self.blueprint.invert_blueprint(),
            action_data: self.action_data.duplicate(),
        }
    }
}

} // verus!
