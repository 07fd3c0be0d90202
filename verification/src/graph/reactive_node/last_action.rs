//! What was last done to a node, for those who watch it.

use vstd::prelude::*;

use crate::blueprint::finalized_update_node::{FinalizedUpdateNode, FinalizedUpdateNodeView};
use crate::blueprint::update_node::{duplicate_opt, view_opt};
use crate::common::GraphTraits;

verus! {

/// The tag of the action that changed a node and, where that action undoes
/// or repeats an earlier one, the tag of that one.
#[derive(Debug, Clone, PartialEq, Eq, Hash)]
pub struct ActionData<A> {
    pub main_action: A,
    pub secondary_action: Option<A>,
}

impl<A: View> View for ActionData<A> {
    type V = ActionData<A::V>;

    open spec fn view(&self) -> ActionData<A::V> {
        ActionData {
            main_action: self.main_action@,
            secondary_action: view_opt(self.secondary_action),
        }
    }
}

impl<A: GraphTraits> ActionData<A> {
    pub fn new(action: A) -> (r: Self)
        ensures
            r@ == (ActionData { main_action: action@, secondary_action: None }),
    {
        ActionData { main_action: action, secondary_action: None }
    }

    /// The same action with a secondary one.
    pub fn set_secondary_action(&self, secondary_action: A) -> (r: Self)
        ensures
            r@ == (ActionData {
                main_action: self@.main_action,
                secondary_action: Some(secondary_action@),
            }),
    {
        ActionData {
            secondary_action: Some(secondary_action),
            main_action: self.main_action.duplicate(),
        }
    }

    /// The same action once more.
    pub fn duplicate(&self) -> (r: Self)
        ensures
            r@ == self@,
    {
        ActionData {
            main_action: self.main_action.duplicate(),
            secondary_action: duplicate_opt(&self.secondary_action),
        }
    }
}

#[derive(Debug, Clone)]
pub struct LastAction<T, E, A> {
    pub action_data: ActionData<A>,
    pub update_info: Option<FinalizedUpdateNode<T, E>>,
}

/// What a [`LastAction`] holds.
pub struct LastActionView<TV, EV, AV> {
    pub action_data: ActionData<AV>,
    pub update_info: Option<FinalizedUpdateNodeView<TV, EV>>,
}

impl<T: View, E: View, A: View> View for LastAction<T, E, A> {
    type V = LastActionView<T::V, E::V, A::V>;

    open spec fn view(&self) -> LastActionView<T::V, E::V, A::V> {
        LastActionView { action_data: self.action_data@, update_info: view_opt(self.update_info) }
    }
}

impl<T: GraphTraits, E: GraphTraits, A: GraphTraits> LastAction<T, E, A> {
    /// The same record once more.
    pub fn duplicate(&self) -> (r: Self)
        ensures
            r@ == self@,
    {
        LastAction {
            action_data: self.action_data.duplicate(),
            update_info: match &self.update_info {
                Some(u) => Some(u.duplicate()),
                None => None,
            },
        }
    }
}

} // verus!
