//! Merging staged records.

use vstd::prelude::*;

use crate::blueprint::new_node::NewNodeView;
use crate::blueprint::update_node::{items_of, merge_sets, UpdateNodeView};
use crate::collections::seq_model::{lemma_union_members, union_seq};

verus! {

/// Whether two sequences hold the same items.
pub open spec fn same_members<A>(s: Seq<A>, t: Seq<A>) -> bool {
    forall|a: A| s.contains(a) <==> t.contains(a)
}

/// Whether two optional sets are both there or both not, and hold the same
/// items.
pub open spec fn same_optional_members<A>(s: Option<Seq<A>>, t: Option<Seq<A>>) -> bool {
    (s is Some <==> t is Some) && same_members(items_of(s), items_of(t))
}

/// Uniting three sets gives the same members however the unions are
/// grouped, and uniting two gives the same members in either order.
pub proof fn law_union_members<A>(x: Seq<A>, y: Seq<A>, z: Seq<A>)
    ensures
        same_members(union_seq(union_seq(x, y), z), union_seq(x, union_seq(y, z))),
        same_members(union_seq(x, y), union_seq(y, x)),
{
    lemma_union_members(x, y);
    lemma_union_members(y, x);
    lemma_union_members(union_seq(x, y), z);
    lemma_union_members(y, z);
    lemma_union_members(x, union_seq(y, z));
}

/// Merging three optional sets gives the same members however the merges
/// are grouped.
pub proof fn law_merge_sets_associative<A>(
    x: Option<Seq<A>>,
    y: Option<Seq<A>>,
    z: Option<Seq<A>>,
)
    ensures
        same_optional_members(
            merge_sets(merge_sets(x, y), z),
            merge_sets(x, merge_sets(y, z)),
        ),
{
    law_union_members(items_of(x), items_of(y), items_of(z));
    lemma_union_members(items_of(x), items_of(z));
    lemma_union_members(Seq::<A>::empty(), items_of(z));
    lemma_union_members(items_of(x), union_seq(Seq::<A>::empty(), items_of(z)));
    lemma_union_members(items_of(x), items_of(y));
}

/// Merging the records `a`, `b` and `c` of one new node, in this order,
/// gives the same record whether `a` and `b` are merged first or `b` and
/// `c`: the same identifier, alias and payload (the first alias and the
/// first payload that is set win), and the same labels and edges.
pub proof fn law_new_node_merge_associative<TV, EV>(
    a: NewNodeView<TV, EV>,
    b: NewNodeView<TV, EV>,
    c: NewNodeView<TV, EV>,
    unset: TV,
)
    ensures
        ({
            let left = a.spec_merge_additive(b, unset).spec_merge_additive(c, unset);
            let right = a.spec_merge_additive(b.spec_merge_additive(c, unset), unset);
            &&& left.id == right.id
            &&& left.temp_id == right.temp_id
            &&& left.data == right.data
            &&& same_members(left.add_labels, right.add_labels)
            &&& same_members(left.add_edges, right.add_edges)
        }),
{
    law_union_members(a.add_labels, b.add_labels, c.add_labels);
    law_union_members(a.add_edges, b.add_edges, c.add_edges);
}

/// Merging the changes `a`, `b` and `c` of one node, in this order, gives
/// the same change whether `a` and `b` are merged first or `b` and `c`: the
/// same identifier and replacement payload (the first one that is set
/// wins), and the same labels and edges to add and to remove.
pub proof fn law_update_node_merge_associative<TV, EV>(
    a: UpdateNodeView<TV, EV>,
    b: UpdateNodeView<TV, EV>,
    c: UpdateNodeView<TV, EV>,
)
    ensures
        ({
            let left = a.spec_merge(b).spec_merge(c);
            let right = a.spec_merge(b.spec_merge(c));
            &&& left.id == right.id
            &&& left.replacement_data == right.replacement_data
            &&& same_optional_members(left.add_labels, right.add_labels)
            &&& same_optional_members(left.remove_labels, right.remove_labels)
            &&& same_optional_members(left.add_edges, right.add_edges)
            &&& same_optional_members(left.remove_edges, right.remove_edges)
        }),
{
    law_merge_sets_associative(a.add_labels, b.add_labels, c.add_labels);
    law_merge_sets_associative(a.remove_labels, b.remove_labels, c.remove_labels);
    law_merge_sets_associative(a.add_edges, b.add_edges, c.add_edges);
    law_merge_sets_associative(a.remove_edges, b.remove_edges, c.remove_edges);
}

} // verus!
