//! A node that a transaction creates.

use vstd::prelude::*;
use vstd::string::StringExecFns;

use crate::blueprint::delete_node::{DeleteNode, DeleteNodeView};
use crate::collections::seq_model::{
    first_of, insert_unique, lemma_take_all, lemma_take_step, search, search_from, union_seq,
    without,
};
use crate::collections::VecSet;
use crate::common::graph_error::decimal_text;
use crate::common::{
    uid_text, EdgeDescriptor, EdgeDir, EdgeFinder, EdgeFinderView, GraphError, GraphErrorView,
    GraphTraits, GraphValue, Uid,
};

verus! {

/// An identifier that stands for a node within one transaction.
pub type TempId = Uid;

/// `uuid::Uuid::new_v4` and `Uuid::to_u128_le`: the 128 bits of a random
/// identifier. Nothing is known of which.
#[verifier::external_body]
pub(crate) fn fresh_uid() -> Uid {
    uuid::Uuid::new_v4().to_u128_le()
}

#[derive(Debug, Clone)]
pub struct NewNode<T, E> {
    pub id: Uid,
    pub temp_id: Option<TempId>,
    pub data: T,
    pub add_labels: VecSet<String>,
    pub add_edges: VecSet<EdgeDescriptor<E>>,
}

/// What a [`NewNode`] holds.
pub struct NewNodeView<TV, EV> {
    pub id: Uid,
    pub temp_id: Option<TempId>,
    pub data: TV,
    pub add_labels: Seq<Seq<char>>,
    pub add_edges: Seq<EdgeDescriptor<EV>>,
}

impl<T: View, E: View> View for NewNode<T, E> {
    type V = NewNodeView<T::V, E::V>;

    open spec fn view(&self) -> NewNodeView<T::V, E::V> {
        NewNodeView {
            id: self.id,
            temp_id: self.temp_id,
            data: self.data@,
            add_labels: self.add_labels@,
            add_edges: self.add_edges@,
        }
    }
}

/// The error of merging two records that are not about the same node.
pub open spec fn merge_conflict(first: Uid, second: Uid) -> GraphErrorView {
    GraphErrorView::Blueprint(
        "cannot merge nodes with different ids\nID1: "@ + decimal_text(first as nat) + "\nID2: "@
            + decimal_text(second as nat),
    )
}

/// The error of merging two records that are not about the same node.
pub fn merge_conflict_error(first: Uid, second: Uid) -> (e: GraphError)
    ensures
        e@ == merge_conflict(first, second),
{
    let a = uid_text(first);
    let b = uid_text(second);
    GraphError::Blueprint(
        String::from_str("cannot merge nodes with different ids\nID1: ").concat(
            a.as_str(),
        ).concat("\nID2: ").concat(b.as_str()),
    )
}

/// The pattern of the edge through which a node is rendered.
pub open spec fn render_parent_pattern<EV>() -> EdgeFinderView<EV> {
    EdgeFinderView { render_info: Some(Some(EdgeDir::Recv)), ..EdgeFinderView::any() }
}

/// The edges of `edges` that a search with `finder` collects.
pub open spec fn spec_find_edges<EV>(
    edges: Seq<EdgeDescriptor<EV>>,
    finder: EdgeFinderView<EV>,
) -> Seq<EdgeDescriptor<EV>> {
    search(edges, |e: EdgeDescriptor<EV>| finder.spec_matches(e), finder.wants_all())
}

/// `edges` with `edge` replaced by the same edge under other render
/// information.
pub open spec fn spec_retag<EV>(
    edges: Seq<EdgeDescriptor<EV>>,
    edge: EdgeDescriptor<EV>,
    render_info: Option<EdgeDir>,
) -> Seq<EdgeDescriptor<EV>> {
    insert_unique(without(edges, edge), edge.spec_with_render(render_info))
}

/// What a search with `finder` over `edges` adds to `init`.
pub open spec fn spec_find_more<EV>(
    init: Seq<EdgeDescriptor<EV>>,
    edges: Seq<EdgeDescriptor<EV>>,
    finder: EdgeFinderView<EV>,
) -> Seq<EdgeDescriptor<EV>> {
    search_from(init, edges, |e: EdgeDescriptor<EV>| finder.spec_matches(e), finder.wants_all())
}

/// Adds to `found` what a search with `finder` finds in `edges`.
pub fn find_more<E: GraphTraits>(
    found: &mut VecSet<EdgeDescriptor<E>>,
    edges: &VecSet<EdgeDescriptor<E>>,
    finder: &EdgeFinder<E>,
)
    ensures
        final(found)@ == spec_find_more(old(found)@, edges@, finder@),
{
    let all = finder.wants_all();
    let mut i: usize = 0;
    while i < edges.len()
        invariant
            i <= edges@.len(),
            all == finder@.wants_all(),
            found@ == spec_find_more(old(found)@, edges@.take(i as int), finder@),
        decreases edges@.len() - i,
    {
        proof {
            lemma_take_step(edges@, i as int);
        }
        if (all || found.is_empty()) && finder.matches(edges.get(i)) {
            found.insert(edges.get(i).duplicate());
        }
        i += 1;
    }
    proof {
        lemma_take_all(edges@);
    }
}

/// Collects from `edges` what a search with `finder` finds.
pub fn find_in_edges<E: GraphTraits>(
    edges: &VecSet<EdgeDescriptor<E>>,
    finder: &EdgeFinder<E>,
) -> (r: VecSet<EdgeDescriptor<E>>)
    ensures
        r@ == spec_find_edges(edges@, finder@),
{
    let mut found: VecSet<EdgeDescriptor<E>> = VecSet::new();
    find_more(&mut found, edges, finder);
    found
}

impl<TV, EV> NewNodeView<TV, EV> {
    /// A record without labels, edges or alias.
    pub open spec fn blank(id: Uid, data: TV) -> Self {
        NewNodeView { id, temp_id: None, data, add_labels: Seq::empty(), add_edges: Seq::empty() }
    }

    /// The two records of one node as one: the first alias and the first
    /// payload other than `unset` win, labels and edges are united.
    pub open spec fn spec_merge_additive(self, other: Self, unset: TV) -> Self {
        NewNodeView {
            id: self.id,
            temp_id: if self.temp_id is None {
                other.temp_id
            } else {
                self.temp_id
            },
            data: if self.data == unset {
                other.data
            } else {
                self.data
            },
            add_labels: union_seq(self.add_labels, other.add_labels),
            add_edges: union_seq(self.add_edges, other.add_edges),
        }
    }

    /// The edge through which this node is rendered, if it has one.
    pub open spec fn spec_render_edge(self) -> Option<EdgeDescriptor<EV>> {
        first_of(spec_find_edges(self.add_edges, render_parent_pattern()))
    }

    /// The deletion that undoes this creation.
    pub open spec fn spec_history_invert(self) -> DeleteNodeView<TV, EV> {
        DeleteNodeView {
            id: self.id,
            remove_edges: self.add_edges,
            remove_labels: self.add_labels,
            data: self.data,
        }
    }
}

impl<T: GraphTraits, E: GraphTraits> NewNode<T, E> {
    /// A record with a fresh identifier and nothing else.
    pub fn new() -> (r: Self)
        ensures
            r@ == NewNodeView::<T::V, E::V>::blank(r@.id, T::default_view()),
    {
        NewNode {
            id: fresh_uid(),
            temp_id: None,
            data: T::default_value(),
            add_labels: VecSet::new(),
            add_edges: VecSet::new(),
        }
    }

    /// A record with the same contents.
    pub fn duplicate(&self) -> (r: Self)
        ensures
            r@ == self@,
    {
        NewNode {
            id: self.id,
            temp_id: self.temp_id,
            data: self.data.duplicate(),
            add_labels: self.add_labels.duplicate(),
            add_edges: self.add_edges.duplicate(),
        }
    }

    /// Merges a second record of the same node into this one.
    pub fn merge_additive(&self, other: Self) -> (r: Result<Self, GraphError>)
        ensures
            match r {
                Ok(n) => self@.id == other@.id && n@ == self@.spec_merge_additive(
                    other@,
                    T::default_view(),
                ),
                Err(e) => self@.id != other@.id && e@ == merge_conflict(self@.id, other@.id),
            },
    {
        if self.id != other.id {
            return Err(merge_conflict_error(self.id, other.id));
        }
        let unset = T::default_value();
        Ok(
            NewNode {
                id: self.id,
                temp_id: if self.temp_id.is_none() {
                    other.temp_id
                } else {
                    self.temp_id
                },
                data: if self.data.same(&unset) {
                    other.data
                } else {
                    self.data.duplicate()
                },
                add_labels: self.add_labels.union(&other.add_labels),
                add_edges: self.add_edges.union(&other.add_edges),
            },
        )
    }

    /// The same record under another identifier.
    pub fn set_id(&self, id: Uid) -> (r: Self)
        ensures
            r@ == (NewNodeView { id, ..self@ }),
    {
        let mut r = self.duplicate();
        r.id = id;
        r
    }

    /// The staged edges that `edge_finder` matches: all of them, or the
    /// first.
    pub fn find_edges(&self, edge_finder: &EdgeFinder<E>) -> (r: VecSet<EdgeDescriptor<E>>)
        ensures
            r@ == spec_find_edges(self@.add_edges, edge_finder@),
    {
        find_in_edges(&self.add_edges, edge_finder)
    }

    /// Replaces `edge` by the same edge under other render information.
    pub fn update_edge_render_info(
        &self,
        edge: &EdgeDescriptor<E>,
        new_render_info: Option<EdgeDir>,
    ) -> (r: Self)
        ensures
            r@ == (NewNodeView {
                add_edges: spec_retag(self@.add_edges, edge@, new_render_info),
                ..self@
            }),
    {
        let mut r = self.duplicate();
        r.add_edges.remove(edge);
        r.add_edges.insert(edge.with_render(new_render_info));
        r
    }

    /// The edge through which this node is rendered, if it has one.
    pub fn get_render_edge(&self) -> (r: Option<EdgeDescriptor<E>>)
        ensures
            match r {
                Some(e) => self@.spec_render_edge() == Some(e@),
                None => self@.spec_render_edge() is None,
            },
    {
        let finder = EdgeFinder::<E>::new().render_info(Some(EdgeDir::Recv));
        let render_edge = self.find_edges(&finder);
        if render_edge.is_empty() {
            None
        } else {
            Some(render_edge.get(0).duplicate())
        }
    }

    /// The deletion that undoes this creation.
    pub fn history_invert(&self) -> (r: DeleteNode<T, E>)
        ensures
            r@ == self@.spec_history_invert(),
    {
        DeleteNode {
            id: self.id,
            data: self.data.duplicate(),
            remove_labels: self.add_labels.duplicate(),
            remove_edges: self.add_edges.duplicate(),
        }
    }
}

} // verus!
