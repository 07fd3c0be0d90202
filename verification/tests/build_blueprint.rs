use routable_graph::blueprint::{AddBlueprintEdges, BuildBlueprint};
use routable_graph::collections::VecSet;
use routable_graph::common::{EdgeDescriptor, EdgeDir, EdgeFinder};
use routable_graph::graph::reactive_node::build_reactive_node::BuildReactiveNode;
use routable_graph::graph::reactive_node::last_action::{ActionData, LastAction};
use routable_graph::graph::view_graph::ViewGraph;

/// (999) -> (998) -> (997)
fn manual_setup_graph() -> ViewGraph<String, String, String> {
    let mut graph = ViewGraph::new();
    let mut edges1 = VecSet::new();
    edges1.insert(EdgeDescriptor {
        dir: EdgeDir::Emit,
        edge_type: "existing_edge_type".into(),
        host: 999,
        target: 998,
        render_info: Some(EdgeDir::Emit),
    });
    let (read_reactive_node_1, _write_reative_node_1) =
        BuildReactiveNode::<String, String, String>::new()
            .id(999)
            .data("Existent node 1".into())
            .map_edges_from_bp(&edges1)
            .add_last_action(LastAction {
                action_data: ActionData::new("manual create".to_string()),
                update_info: None,
            })
            .build();
    let mut edges2 = VecSet::new();
    edges2.insert(EdgeDescriptor {
        dir: EdgeDir::Recv,
        edge_type: "existing_edge_type".into(),
        host: 998,
        target: 999,
        render_info: Some(EdgeDir::Recv),
    });
    edges2.insert(EdgeDescriptor {
        dir: EdgeDir::Emit,
        edge_type: "existing_edge_type".into(),
        host: 998,
        target: 997,
        render_info: Some(EdgeDir::Emit),
    });
    let (read_reactive_node_2, _write_reative_node_2) =
        BuildReactiveNode::<String, String, String>::new()
            .id(998)
            .data("Existent node 1".into())
            .map_edges_from_bp(&edges2)
            .add_last_action(LastAction {
                action_data: ActionData::new("manual create".to_string()),
                update_info: None,
            })
            .build();
    let mut edges3 = VecSet::new();
    edges3.insert(EdgeDescriptor {
        dir: EdgeDir::Recv,
        edge_type: "existing_edge_type".into(),
        host: 997,
        target: 998,
        render_info: Some(EdgeDir::Recv),
    });
    let (read_reactive_node_3, _write_reative_node_3) =
        BuildReactiveNode::<String, String, String>::new()
            .id(997)
            .data("Existent node 1".into())
            .map_edges_from_bp(&edges3)
            .add_last_action(LastAction {
                action_data: ActionData::new("manual create".to_string()),
                update_info: None,
            })
            .build();

    graph.nodes.insert(999, read_reactive_node_1);
    graph.nodes.insert(998, read_reactive_node_2);
    graph.nodes.insert(997, read_reactive_node_3);

    graph
}

#[test]
fn should_generate_correct_graph_from_only_new_nodes() {
    let mut graph = ViewGraph::new();
    let build_blueprint = BuildBlueprint::<String, String>::new();

    let build_blueprint = build_blueprint
        .start_with_new_node()
        .set_id(1)
        .set_temp_id(1)
        .add_edge_new(EdgeDir::Emit, "edge_type".into(), |blue_new| {
            blue_new
                .set_id(2)
                .add_edge_new(EdgeDir::Emit, "edge_type".into(), |blue_new| {
                    blue_new.set_id(3)
                })
        })
        .blueprint;

    let build_blueprint = build_blueprint
        .finalize::<String>(&graph, None, Some(1))
        .unwrap();

    let action_data = ActionData::new("update".to_string());

    graph.add_nodes(build_blueprint.new_nodes, action_data.clone());
    graph.delete_nodes(build_blueprint.delete_nodes).unwrap();
    graph
        .update_nodes(build_blueprint.update_nodes, action_data.clone())
        .unwrap();

    assert_eq!(graph.nodes.len(), 3);

    assert!(graph
        .nodes
        .get(&1)
        .unwrap()
        .search_for_edge(
            &EdgeFinder::new()
                .target(2)
                .dir(EdgeDir::Emit)
                .render_info(Some(EdgeDir::Emit))
        )
        .is_some());

    assert!(graph
        .nodes
        .get(&2)
        .unwrap()
        .search_for_edge(
            &EdgeFinder::new()
                .target(3)
                .dir(EdgeDir::Emit)
                .render_info(Some(EdgeDir::Emit))
        )
        .is_some(),);
    assert!(graph
        .nodes
        .get(&2)
        .unwrap()
        .search_for_edge(
            &EdgeFinder::new()
                .target(1)
                .dir(EdgeDir::Recv)
                .render_info(Some(EdgeDir::Recv))
        )
        .is_some(),);
    assert!(graph
        .nodes
        .get(&3)
        .unwrap()
        .search_for_edge(
            &EdgeFinder::new()
                .target(2)
                .dir(EdgeDir::Recv)
                .render_info(Some(EdgeDir::Recv))
        )
        .is_some(),);
}

#[test]
fn should_fail_if_new_node_cannot_be_connected() {
    let graph = ViewGraph::new();
    let build_blueprint = BuildBlueprint::<String, String>::new();

    let build_blueprint = build_blueprint
        .start_with_new_node()
        .set_id(1)
        .set_temp_id(1)
        .add_edge_new(EdgeDir::Emit, "edge_type".into(), |blue_new| {
            blue_new.set_id(2)
        })
        .blueprint;

    let build_blueprint = build_blueprint
        .start_with_new_node()
        .set_id(3)
        .set_temp_id(2)
        .blueprint;

    let build_blueprint = build_blueprint.finalize::<String>(&graph, None, Some(1));

    assert!(build_blueprint.is_err());
}

#[test]
fn should_correctly_attach_new_node_subgraph_to_existing_graph() {
    let mut graph = manual_setup_graph();
    let build_blueprint = BuildBlueprint::<String, String>::new();

    let build_blueprint = build_blueprint
        .start_with_new_node()
        .set_id(1)
        .set_temp_id(1)
        .add_edge_existing(EdgeDir::Recv, "edge_type".into(), 999, |blue_update| {
            blue_update
        })
        .add_edge_new(EdgeDir::Emit, "edge_type".into(), |blue_new| {
            blue_new
                .set_id(2)
                .add_edge_new(EdgeDir::Emit, "edge_type".into(), |blue_new| {
                    blue_new.set_id(3)
                })
        })
        .blueprint;

    let build_blueprint = build_blueprint.finalize(&graph, None, None).unwrap();

    let action_data = ActionData::new("update".to_string());
    graph.add_nodes(build_blueprint.new_nodes, action_data.clone());
    graph.delete_nodes(build_blueprint.delete_nodes).unwrap();
    graph
        .update_nodes(build_blueprint.update_nodes, action_data.clone())
        .unwrap();

    assert!(graph
        .nodes
        .get(&1)
        .unwrap()
        .search_for_edge(
            &EdgeFinder::new()
                .target(999)
                .render_info(Some(EdgeDir::Recv))
        )
        .is_some());
}

#[test]
fn should_delete_existing_nodes_which_are_no_longer_renderable() {
    let graph = manual_setup_graph();
    let build_blueprint = BuildBlueprint::<String, String>::new();

    let build_blueprint = build_blueprint
        .start_with_update_node(999)
        .remove_edge(EdgeFinder::new().target(998))
        .blueprint;

    let build_blueprint = build_blueprint.finalize(&graph, None, None).unwrap();
    assert!(build_blueprint.delete_nodes.get(&998).is_some());
    assert!(build_blueprint.delete_nodes.get(&997).is_some());
}

#[test]
fn should_reconnect_existing_nodes_which_were_disconnected_if_possible() {
    let mut graph = manual_setup_graph();
    let build_blueprint = BuildBlueprint::<String, String>::new();

    let build_blueprint = build_blueprint
        .start_with_new_node()
        .set_id(1)
        .add_edge_existing(EdgeDir::Recv, "edge_type".into(), 999, |blue_update| {
            blue_update.remove_edge(EdgeFinder::new().target(998))
        })
        .add_edge_existing(EdgeDir::Emit, "edge_type".into(), 997, |blue_update| {
            blue_update
        })
        .blueprint;

    let build_blueprint = build_blueprint.finalize(&graph, None, None).unwrap();
    assert!(build_blueprint.delete_nodes.get(&998).is_some());
    assert!(build_blueprint.delete_nodes.get(&997).is_none());

    println!("{:?}", build_blueprint);

    let action_data = ActionData::new("update".to_string());
    graph.add_nodes(build_blueprint.new_nodes, action_data.clone());
    graph.delete_nodes(build_blueprint.delete_nodes).unwrap();
    graph
        .update_nodes(build_blueprint.update_nodes, action_data.clone())
        .unwrap();

    assert!(graph
        .nodes
        .get(&997)
        .unwrap()
        .search_for_edge(&EdgeFinder::new().target(1).render_info(Some(EdgeDir::Recv)))
        .is_some());
}

#[test]
fn should_reconnect_child_existing_nodes_which_were_disconnected_using_new_node_if_possible() {
    let mut graph = manual_setup_graph();
    let build_blueprint = BuildBlueprint::<String, String>::new();

    let build_blueprint = build_blueprint
        .start_with_new_node()
        .set_id(1)
        .add_edge_existing(EdgeDir::Recv, "edge_type".into(), 999, |blue_update| {
            blue_update.remove_edge(EdgeFinder::new().target(998))
        })
        .add_edge_existing(EdgeDir::Emit, "edge_type".into(), 998, |blue_update| {
            blue_update
        })
        .blueprint;

    let build_blueprint = build_blueprint.finalize(&graph, None, None).unwrap();
    println!("{:?}", build_blueprint);

    assert!(build_blueprint.delete_nodes.get(&998).is_none());
    assert!(build_blueprint.delete_nodes.get(&997).is_none());

    let action_data = ActionData::new("update".to_string());
    graph.add_nodes(build_blueprint.new_nodes, action_data.clone());
    graph.delete_nodes(build_blueprint.delete_nodes).unwrap();
    graph
        .update_nodes(build_blueprint.update_nodes, action_data.clone())
        .unwrap();

    assert!(graph
        .nodes
        .get(&998)
        .unwrap()
        .search_for_edge(&EdgeFinder::new().target(1).render_info(Some(EdgeDir::Recv)))
        .is_some());

    assert!(graph
        .nodes
        .get(&997)
        .unwrap()
        .search_for_edge(
            &EdgeFinder::new()
                .target(998)
                .render_info(Some(EdgeDir::Recv))
        )
        .is_some());
}
