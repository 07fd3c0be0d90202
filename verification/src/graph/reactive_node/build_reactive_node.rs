//! Puts a node together field by field.

use vstd::prelude::*;

use crate::blueprint::new_node::{NewNode, NewNodeView};
use crate::blueprint::update_node::{duplicate_opt, duplicate_set, items_of, view_opt};
use crate::collections::seq_model::{lemma_skip_none, lemma_skip_step, put, union_seq};
use crate::collections::{VecMap, VecSet};
use crate::common::{EdgeDescriptor, GraphTraits, GraphValue, Uid};
use crate::graph::reactive_node::last_action::{ActionData, LastAction, LastActionView};
use crate::graph::reactive_node::read_reactive_node::{NodeView, ReadReactiveNode};
use crate::graph::reactive_node::utils::{duplicate_map, place_edges, EdgeMap, EdgeMaps};
use crate::graph::reactive_node::write_reactive_node::WriteReactiveNode;

verus! {

#[derive(Debug, Clone)]
pub struct BuildReactiveNode<T, E, A> {
    id: Option<Uid>,
    data: Option<T>,
    labels: Option<VecSet<String>>,
    incoming_edges: Option<EdgeMap<E>>,
    outgoing_edges: Option<EdgeMap<E>>,
    last_action: Option<LastAction<T, E, A>>,
}

/// What a [`BuildReactiveNode`] holds.
pub struct BuildReactiveNodeView<TV, EV, AV> {
    pub id: Option<Uid>,
    pub data: Option<TV>,
    pub labels: Option<Seq<Seq<char>>>,
    pub incoming_edges: Option<Seq<(EV, Seq<EdgeDescriptor<EV>>)>>,
    pub outgoing_edges: Option<Seq<(EV, Seq<EdgeDescriptor<EV>>)>>,
    pub last_action: Option<LastActionView<TV, EV, AV>>,
}

impl<T: View, E: View, A: View> View for BuildReactiveNode<T, E, A> {
    type V = BuildReactiveNodeView<T::V, E::V, A::V>;

    closed spec fn view(&self) -> BuildReactiveNodeView<T::V, E::V, A::V> {
        BuildReactiveNodeView {
            id: self.id,
            data: view_opt(self.data),
            labels: view_opt(self.labels),
            incoming_edges: view_opt(self.incoming_edges),
            outgoing_edges: view_opt(self.outgoing_edges),
            last_action: view_opt(self.last_action),
        }
    }
}

/// `base` with each entry of `more` put into it, in order.
pub open spec fn spec_extend<K, V>(base: Seq<(K, V)>, more: Seq<(K, V)>) -> Seq<(K, V)>
    decreases more.len(),
{
    if more.len() == 0 {
        base
    } else {
        spec_extend(put(base, more[0].0, more[0].1), more.skip(1))
    }
}

impl<TV, EV, AV> BuildReactiveNodeView<TV, EV, AV> {
    /// Nothing set yet.
    pub open spec fn blank() -> Self {
        BuildReactiveNodeView {
            id: None,
            data: None,
            labels: None,
            incoming_edges: None,
            outgoing_edges: None,
            last_action: None,
        }
    }

    /// The edges set so far.
    pub open spec fn edges(self) -> EdgeMaps<EV> {
        EdgeMaps {
            incoming: items_of(self.incoming_edges),
            outgoing: items_of(self.outgoing_edges),
        }
    }

    /// With each of `edges` placed by its direction and type.
    pub open spec fn spec_map_edges_from_bp(self, edges: Seq<EdgeDescriptor<EV>>) -> Self {
        BuildReactiveNodeView {
            incoming_edges: Some(self.edges().place_all(edges).incoming),
            outgoing_edges: Some(self.edges().place_all(edges).outgoing),
            ..self
        }
    }

    /// With more labels.
    pub open spec fn spec_add_labels(self, labels: Seq<Seq<char>>) -> Self {
        BuildReactiveNodeView { labels: Some(union_seq(items_of(self.labels), labels)), ..self }
    }

    /// With all that a creation describes, and the action that made it.
    pub open spec fn spec_ingest(self, bp: NewNodeView<TV, EV>, action: ActionData<AV>) -> Self {
        (BuildReactiveNodeView {
            data: Some(bp.data),
            id: Some(bp.id),
            last_action: Some(LastActionView { action_data: action, update_info: None }),
            ..self
        }).spec_map_edges_from_bp(bp.add_edges).spec_add_labels(bp.add_labels)
    }

    /// Whether all is set that a node cannot do without.
    pub open spec fn complete(self) -> bool {
        self.id is Some && self.data is Some && self.last_action is Some
    }

    /// The node that is built from what is set.
    pub open spec fn spec_build(self) -> NodeView<TV, EV, AV> {
        NodeView {
            id: self.id->0,
            data: self.data->0,
            labels: items_of(self.labels),
            incoming_edges: items_of(self.incoming_edges),
            outgoing_edges: items_of(self.outgoing_edges),
            last_action: self.last_action->0,
        }
    }
}

/// From a blank builder, a creation is built into the node that it
/// describes.
pub proof fn lemma_ingest_builds<TV, EV, AV>(bp: NewNodeView<TV, EV>, action: ActionData<AV>)
    ensures
        BuildReactiveNodeView::<TV, EV, AV>::blank().spec_ingest(bp, action).complete(),
        BuildReactiveNodeView::<TV, EV, AV>::blank().spec_ingest(bp, action).spec_build()
            == NodeView::<TV, EV, AV>::spec_from_new(bp, action),
{
}

fn own_map<E: GraphTraits>(map: &Option<EdgeMap<E>>) -> (r: EdgeMap<E>)
    ensures
        r@ == items_of(view_opt(*map)),
{
    match map {
        Some(m) => duplicate_map(m),
        None => VecMap::new(),
    }
}

fn extend_map<E: GraphTraits>(base: &Option<EdgeMap<E>>, more: &EdgeMap<E>) -> (r: EdgeMap<E>)
    ensures
        r@ == spec_extend(items_of(view_opt(*base)), more@),
{
    let mut r = own_map(base);
    let mut i: usize = 0;
    proof {
        lemma_skip_none(more@);
    }
    while i < more.len()
        invariant
            i <= more@.len(),
            spec_extend(items_of(view_opt(*base)), more@) == spec_extend(
                r@,
                more@.skip(i as int),
            ),
        decreases more@.len() - i,
    {
        proof {
            lemma_skip_step(more@, i as int);
        }
        r.insert(more.key_at(i).duplicate(), more.value_at(i).duplicate());
        i += 1;
    }
    r
}

impl<T: GraphTraits, E: GraphTraits, A: GraphTraits> BuildReactiveNode<T, E, A> {
    /// A builder with nothing set.
    pub fn new() -> (r: Self)
        ensures
            r@ == BuildReactiveNodeView::<T::V, E::V, A::V>::blank(),
    {
        BuildReactiveNode {
            id: None,
            data: None,
            labels: None,
            incoming_edges: None,
            outgoing_edges: None,
            last_action: None,
        }
    }

    fn duplicate(&self) -> (r: Self)
        ensures
            r@ == self@,
    {
        BuildReactiveNode {
            id: self.id,
            data: duplicate_opt(&self.data),
            labels: duplicate_set(&self.labels),
            incoming_edges: match &self.incoming_edges {
                Some(m) => Some(duplicate_map(m)),
                None => None,
            },
            outgoing_edges: match &self.outgoing_edges {
                Some(m) => Some(duplicate_map(m)),
                None => None,
            },
            last_action: match &self.last_action {
                Some(a) => Some(a.duplicate()),
                None => None,
            },
        }
    }

    pub fn id(&self, id: Uid) -> (r: Self)
        ensures
            r@ == (BuildReactiveNodeView { id: Some(id), ..self@ }),
    {
        let mut r = self.duplicate();
        r.id = Some(id);
        r
    }

    pub fn data(&self, data: T) -> (r: Self)
        ensures
            r@ == (BuildReactiveNodeView { data: Some(data@), ..self@ }),
    {
        let mut r = self.duplicate();
        r.data = Some(data);
        r
    }

    /// Adds labels to those set so far.
    pub fn add_labels(&self, labels: VecSet<String>) -> (r: Self)
        ensures
            r@ == self@.spec_add_labels(labels@),
    {
        let mut r = self.duplicate();
        let updated_labels = match &self.labels {
            Some(mine) => mine.union(&labels),
            None => {
                let empty: VecSet<String> = VecSet::new();
                empty.union(&labels)
            },
        };
        r.labels = Some(updated_labels);
        r
    }

    /// Puts lists of arriving edges under their types, each in place of the
    /// list that was there.
    pub fn add_incoming_edges(&self, incoming_edges: EdgeMap<E>) -> (r: Self)
        ensures
            r@ == (BuildReactiveNodeView {
                incoming_edges: Some(
                    spec_extend(items_of(self@.incoming_edges), incoming_edges@),
                ),
                ..self@
            }),
    {
        let mut r = self.duplicate();
        r.incoming_edges = Some(extend_map(&self.incoming_edges, &incoming_edges));
        r
    }

    /// Puts lists of leaving edges under their types, each in place of the
    /// list that was there.
    pub fn add_outgoing_edges(&self, outgoing_edges: EdgeMap<E>) -> (r: Self)
        ensures
            r@ == (BuildReactiveNodeView {
                outgoing_edges: Some(
                    spec_extend(items_of(self@.outgoing_edges), outgoing_edges@),
                ),
                ..self@
            }),
    {
        let mut r = self.duplicate();
        r.outgoing_edges = Some(extend_map(&self.outgoing_edges, &outgoing_edges));
        r
    }

    pub fn add_last_action(&self, last_action: LastAction<T, E, A>) -> (r: Self)
        ensures
            r@ == (BuildReactiveNodeView { last_action: Some(last_action@), ..self@ }),
    {
        let mut r = self.duplicate();
        r.last_action = Some(last_action);
        r
    }

    /// Places each of `edges` by its direction and type.
    pub fn map_edges_from_bp(&self, edges: &VecSet<EdgeDescriptor<E>>) -> (r: Self)
        ensures
            r@ == self@.spec_map_edges_from_bp(edges@),
    {
        let mut new_outgoing_edges = own_map(&self.outgoing_edges);
        let mut new_incoming_edges = own_map(&self.incoming_edges);
        place_edges(&mut new_incoming_edges, &mut new_outgoing_edges, edges);
        let mut r = self.duplicate();
        r.incoming_edges = Some(new_incoming_edges);
        r.outgoing_edges = Some(new_outgoing_edges);
        r
    }

    /// Takes over all that a creation describes, and the action that made
    /// it.
    pub fn ingest_from_blueprint(&self, bp: NewNode<T, E>, action_data: ActionData<A>) -> (r:
        Self)
        ensures
            r@ == self@.spec_ingest(bp@, action_data@),
    {
        self.data(bp.data).id(bp.id).map_edges_from_bp(&bp.add_edges).add_labels(
            bp.add_labels,
        ).add_last_action(LastAction { action_data, update_info: None })
    }

    /// The node in both its forms.
    pub fn build(&self) -> (r: (ReadReactiveNode<T, E, A>, WriteReactiveNode<T, E, A>))
        requires
            self@.complete(),
        ensures
            r.0@ == self@.spec_build(),
            r.1@ == self@.spec_build(),
    {
        let copy = self.duplicate();
        let read_node = ReadReactiveNode {
            id: copy.id.unwrap(),
            data: copy.data.unwrap(),
            labels: match copy.labels {
                Some(l) => l,
                None => VecSet::new(),
            },
            incoming_edges: match copy.incoming_edges {
                Some(m) => m,
                None => VecMap::new(),
            },
            outgoing_edges: match copy.outgoing_edges {
                Some(m) => m,
                None => VecMap::new(),
            },
            last_action: copy.last_action.unwrap(),
        };
        let write_node = WriteReactiveNode::from_read(read_node.duplicate());
        (read_node, write_node)
    }
}

} // verus!
