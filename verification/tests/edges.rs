use routable_graph::blueprint::{AddBlueprintEdges, BuildBlueprint};
use routable_graph::common::{EdgeDescriptor, EdgeDir, EdgeFinder, GraphError, TraversalError};
use routable_graph::hooks::use_routable_store;
use routable_graph::traversal::traversal_step::TraversalCount;

#[test]
fn direction_inverts_both_ways() {
    assert_eq!(EdgeDir::Emit.invert(), EdgeDir::Recv);
    assert_eq!(EdgeDir::Recv.invert(), EdgeDir::Emit);
}

#[test]
fn edge_inverts_ends_direction_and_render_info() {
    let edge = EdgeDescriptor::new(1, "kind".to_string(), 2, Some(EdgeDir::Recv), EdgeDir::Emit);
    let inverted = edge.invert();
    assert_eq!(inverted.host, 2);
    assert_eq!(inverted.target, 1);
    assert_eq!(inverted.dir, EdgeDir::Recv);
    assert_eq!(inverted.render_info, Some(EdgeDir::Emit));
    assert_eq!(inverted.edge_type, "kind".to_string());
    assert_eq!(inverted.invert(), edge);
}

#[test]
fn finder_matches_by_every_field_that_is_set() {
    let edge = EdgeDescriptor::new(1, "kind".to_string(), 2, None, EdgeDir::Emit);
    assert!(EdgeFinder::<String>::new().matches(&edge));
    assert!(EdgeFinder::new().edge_type("kind".to_string()).matches(&edge));
    assert!(!EdgeFinder::new().edge_type("other".to_string()).matches(&edge));
    assert!(EdgeFinder::<String>::new().dir(EdgeDir::Emit).matches(&edge));
    assert!(!EdgeFinder::<String>::new().dir(EdgeDir::Recv).matches(&edge));
    assert!(EdgeFinder::<String>::new().host(1).target(2).matches(&edge));
    assert!(!EdgeFinder::<String>::new().host(2).matches(&edge));
    assert!(EdgeFinder::<String>::new().targets(vec![5, 2]).matches(&edge));
    assert!(!EdgeFinder::<String>::new().hosts(vec![5, 2]).matches(&edge));
    assert!(EdgeFinder::<String>::new().render_info(None).matches(&edge));
    assert!(!EdgeFinder::<String>::new().render_info(Some(EdgeDir::Recv)).matches(&edge));
    assert!(EdgeFinder::<String>::new().host(1).invert().matches(&edge.invert()));
}

#[test]
fn counts_know_their_bounds() {
    assert!(TraversalCount::Exactly(2).is_satisfied(2));
    assert!(!TraversalCount::Exactly(2).is_satisfied(3));
    assert!(TraversalCount::Exactly(2).upper_bound_met(2));
    assert!(TraversalCount::AtLeastInclusive(1).is_satisfied(7));
    assert!(!TraversalCount::AtLeastInclusive(1).is_satisfied(0));
    assert!(!TraversalCount::AtLeastExclusive(1).upper_bound_met(1000));
    assert!(TraversalCount::BetweenInclusive(1, 3).is_satisfied(3));
    assert!(!TraversalCount::BetweenInclusive(1, 3).is_satisfied(4));
    assert!(TraversalCount::BetweenExclusive(1, 3).upper_bound_met(3));
    assert!(TraversalCount::BetweenInclusive(1, 3).is_inclusive());
    assert!(!TraversalCount::BetweenInclusive(1, 3).is_exclusive());
    assert!(TraversalCount::AtLeastExclusive(1).is_exclusive());
    assert!(!TraversalCount::Exactly(1).is_inclusive());
    assert!(!TraversalCount::Exactly(1).is_exclusive());
}

#[test]
fn errors_are_reported_with_their_kind() {
    assert_eq!(
        GraphError::Blueprint("no such node".to_string()).to_text(),
        "Blueprint Error: no such node"
    );
    assert_eq!(
        GraphError::Traversal(TraversalError::NotFound).to_text(),
        "Traversal Error: Traversal Error: Not Found"
    );
    assert_eq!(
        GraphError::blueprint_about("node ", 1203).to_text(),
        "Blueprint Error: node 1203"
    );
    assert_eq!(routable_graph::common::uid_text(0), "0");
    assert_eq!(
        routable_graph::common::uid_text(u128::MAX),
        "340282366920938463463374607431768211455"
    );
}

#[test]
fn a_gated_pattern_asks_the_gate_about_the_target_node() {
    let mut routable = use_routable_store::<String, String, String>(None);
    let blueprint = BuildBlueprint::new()
        .start_with_new_node()
        .set_data("one".to_string())
        .set_id(1)
        .set_temp_id(1)
        .add_edge_new(EdgeDir::Emit, "t".to_string(), |n| n.set_id(2).set_data("two".to_string()))
        .blueprint;
    routable.initiate_graph(blueprint, "create".to_string(), 1).unwrap();
    let edge = EdgeDescriptor::new(1, "t".to_string(), 2, Some(EdgeDir::Emit), EdgeDir::Emit);
    let gone = EdgeDescriptor::new(1, "t".to_string(), 3, Some(EdgeDir::Emit), EdgeDir::Emit);
    let finder = EdgeFinder::<String>::new().dir(EdgeDir::Emit);
    assert!(finder.matches_gated(&edge, &routable.graph, |n| n.data == "two"));
    assert!(!finder.matches_gated(&edge, &routable.graph, |n| n.data == "one"));
    assert!(!finder.matches_gated(&gone, &routable.graph, |_| true));
    let other = EdgeFinder::<String>::new().dir(EdgeDir::Recv);
    assert!(!other.matches_gated(&edge, &routable.graph, |_| true));
}
