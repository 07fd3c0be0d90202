//! A change to a node that the graph already holds.

use vstd::prelude::*;

use crate::blueprint::new_node::{merge_conflict, merge_conflict_error, spec_retag};
use crate::collections::seq_model::{insert_unique, union_seq};
use crate::collections::VecSet;
use crate::common::{EdgeDescriptor, EdgeDir, GraphError, GraphTraits, GraphValue, Uid};

verus! {

#[derive(Debug, Clone)]
pub struct UpdateNode<T, E> {
    pub id: Uid,
    pub replacement_data: Option<T>,
    pub add_labels: Option<VecSet<String>>,
    pub remove_labels: Option<VecSet<String>>,
    pub add_edges: Option<VecSet<EdgeDescriptor<E>>>,
    pub remove_edges: Option<VecSet<EdgeDescriptor<E>>>,
}

/// What an [`UpdateNode`] holds.
pub struct UpdateNodeView<TV, EV> {
    pub id: Uid,
    pub replacement_data: Option<TV>,
    pub add_labels: Option<Seq<Seq<char>>>,
    pub remove_labels: Option<Seq<Seq<char>>>,
    pub add_edges: Option<Seq<EdgeDescriptor<EV>>>,
    pub remove_edges: Option<Seq<EdgeDescriptor<EV>>>,
}

/// The view of an optional value.
pub open spec fn view_opt<X: View>(o: Option<X>) -> Option<X::V> {
    match o {
        Some(x) => Some(x@),
        None => None,
    }
}

/// The items of an optional set, none where there is no set.
pub open spec fn items_of<A>(o: Option<Seq<A>>) -> Seq<A> {
    match o {
        Some(s) => s,
        None => Seq::empty(),
    }
}

/// Two optional sets as one: the union where the second is there, the first
/// as it is where not.
pub open spec fn merge_sets<A>(first: Option<Seq<A>>, second: Option<Seq<A>>) -> Option<Seq<A>> {
    match second {
        Some(s) => Some(union_seq(items_of(first), s)),
        None => first,
    }
}

/// A second optional set with the same items.
pub fn duplicate_set<X: GraphValue>(o: &Option<VecSet<X>>) -> (r: Option<VecSet<X>>)
    ensures
        view_opt(r) == view_opt(*o),
{
    match o {
        Some(s) => Some(s.duplicate()),
        None => None,
    }
}

/// A second optional value with the same view.
pub fn duplicate_opt<X: GraphValue>(o: &Option<X>) -> (r: Option<X>)
    ensures
        view_opt(r) == view_opt(*o),
{
    match o {
        Some(s) => Some(s.duplicate()),
        None => None,
    }
}

fn merge_two<X: GraphValue>(first: &Option<VecSet<X>>, second: Option<VecSet<X>>) -> (r: Option<
    VecSet<X>,
>)
    ensures
        view_opt(r) == merge_sets(view_opt(*first), view_opt(second)),
{
    match second {
        Some(other) => {
            match first {
                Some(mine) => Some(mine.union(&other)),
                None => {
                    let empty: VecSet<X> = VecSet::new();
                    Some(empty.union(&other))
                },
            }
        },
        None => duplicate_set(first),
    }
}

impl<T: View, E: View> View for UpdateNode<T, E> {
    type V = UpdateNodeView<T::V, E::V>;

    open spec fn view(&self) -> UpdateNodeView<T::V, E::V> {
        UpdateNodeView {
            id: self.id,
            replacement_data: view_opt(self.replacement_data),
            add_labels: view_opt(self.add_labels),
            remove_labels: view_opt(self.remove_labels),
            add_edges: view_opt(self.add_edges),
            remove_edges: view_opt(self.remove_edges),
        }
    }
}

impl<TV, EV> UpdateNodeView<TV, EV> {
    /// A change that changes nothing.
    pub open spec fn blank(id: Uid) -> Self {
        UpdateNodeView {
            id,
            replacement_data: None,
            add_labels: None,
            remove_labels: None,
            add_edges: None,
            remove_edges: None,
        }
    }

    /// The two changes of one node as one: the first payload wins, labels
    /// and edges are united.
    pub open spec fn spec_merge(self, other: Self) -> Self {
        UpdateNodeView {
            id: self.id,
            replacement_data: if self.replacement_data is None {
                other.replacement_data
            } else {
                self.replacement_data
            },
            add_labels: merge_sets(self.add_labels, other.add_labels),
            remove_labels: merge_sets(self.remove_labels, other.remove_labels),
            add_edges: merge_sets(self.add_edges, other.add_edges),
            remove_edges: merge_sets(self.remove_edges, other.remove_edges),
        }
    }

    /// This change with `edge` staged under other render information. Where
    /// `edge` is not among the edges staged for addition, it is one that
    /// the graph holds, and its removal is staged too.
    pub open spec fn spec_update_edge_render_info(
        self,
        edge: EdgeDescriptor<EV>,
        render_info: Option<EdgeDir>,
    ) -> Self {
        UpdateNodeView {
            add_edges: Some(spec_retag(items_of(self.add_edges), edge, render_info)),
            remove_edges: if items_of(self.add_edges).contains(edge) {
                self.remove_edges
            } else {
                Some(insert_unique(items_of(self.remove_edges), edge))
            },
            ..self
        }
    }
}

impl<T: GraphTraits, E: GraphTraits> UpdateNode<T, E> {
    /// A change to node `id` that changes nothing yet.
    pub fn new(id: Uid) -> (r: Self)
        ensures
            r@ == UpdateNodeView::<T::V, E::V>::blank(id),
    {
        UpdateNode {
            id,
            replacement_data: None,
            add_labels: None,
            remove_labels: None,
            add_edges: None,
            remove_edges: None,
        }
    }

    /// A change with the same contents.
    pub fn duplicate(&self) -> (r: Self)
        ensures
            r@ == self@,
    {
        UpdateNode {
            id: self.id,
            replacement_data: duplicate_opt(&self.replacement_data),
            add_labels: duplicate_set(&self.add_labels),
            remove_labels: duplicate_set(&self.remove_labels),
            add_edges: duplicate_set(&self.add_edges),
            remove_edges: duplicate_set(&self.remove_edges),
        }
    }

    /// Merges a second change to the same node into this one.
    pub fn merge(&self, other: Self) -> (r: Result<Self, GraphError>)
        ensures
            match r {
                Ok(n) => self@.id == other@.id && n@ == self@.spec_merge(other@),
                Err(e) => self@.id != other@.id && e@ == merge_conflict(self@.id, other@.id),
            },
    {
        if self.id != other.id {
            return Err(merge_conflict_error(self.id, other.id));
        }
        Ok(
            UpdateNode {
                id: self.id,
                replacement_data: if self.replacement_data.is_none() {
                    other.replacement_data
                } else {
                    duplicate_opt(&self.replacement_data)
                },
                add_labels: merge_two(&self.add_labels, other.add_labels),
                remove_labels: merge_two(&self.remove_labels, other.remove_labels),
                remove_edges: merge_two(&self.remove_edges, other.remove_edges),
                add_edges: merge_two(&self.add_edges, other.add_edges),
            },
        )
    }

    /// Stages `edge` under other render information.
    pub fn update_edge_render_info(
        &self,
        edge: &EdgeDescriptor<E>,
        new_render_info: Option<EdgeDir>,
    ) -> (r: Self)
        ensures
            r@ == self@.spec_update_edge_render_info(edge@, new_render_info),
    {
        let mut r = self.duplicate();
        let mut new_edges = match r.add_edges {
            Some(s) => s,
            None => VecSet::new(),
        };
        // An edge that is not staged for addition is one of the graph: it
        // has to go for the marked edge to take its place.
        if !new_edges.contains(edge) {
            let mut new_remove_edges = match r.remove_edges {
                Some(s) => s,
                None => VecSet::new(),
            };
            new_remove_edges.insert(edge.duplicate());
            r.remove_edges = Some(new_remove_edges);
        }
        new_edges.remove(edge);
        new_edges.insert(edge.with_render(new_render_info));
        r.add_edges = Some(new_edges);
        r
    }
}

} // verus!
