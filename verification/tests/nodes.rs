use routable_graph::blueprint::delete_node::DeleteNode;
use routable_graph::blueprint::finalized_update_node::{
    FinalizedUpdateNode, UpdateNodeReplacementData,
};
use routable_graph::blueprint::new_node::NewNode;
use routable_graph::collections::{VecMap, VecSet};
use routable_graph::common::{EdgeDescriptor, EdgeDir, EdgeFinder};
use routable_graph::graph::reactive_node::build_reactive_node::BuildReactiveNode;
use routable_graph::graph::reactive_node::last_action::{ActionData, LastAction};
use routable_graph::graph::reactive_node::read_reactive_node::ReadReactiveNode;
use routable_graph::graph::reactive_node::utils::search_map_for_edge;
use routable_graph::graph::reactive_node::write_reactive_node::WriteReactiveNode;

type Node = ReadReactiveNode<String, String, String>;

fn edge(target: u128, edge_type: &str, dir: EdgeDir, render_info: Option<EdgeDir>) -> EdgeDescriptor<String> {
    EdgeDescriptor::new(10, edge_type.to_string(), target, render_info, dir)
}

fn created() -> LastAction<String, String, String> {
    LastAction { action_data: ActionData::new("create".to_string()), update_info: None }
}

fn node() -> Node {
    BuildReactiveNode::<String, String, String>::new()
        .id(10)
        .data("ten".to_string())
        .add_labels(VecSet::from_vec(vec!["a".to_string(), "b".to_string()]))
        .map_edges_from_bp(&VecSet::from_vec(vec![
            edge(1, "up", EdgeDir::Recv, Some(EdgeDir::Recv)),
            edge(2, "down", EdgeDir::Emit, None),
            edge(3, "down", EdgeDir::Emit, None),
            edge(4, "side", EdgeDir::Emit, None),
        ]))
        .add_last_action(created())
        .build()
        .0
}

#[test]
fn a_node_is_built_with_its_edges_by_direction_and_type() {
    let node = node();
    assert_eq!(node.id, 10);
    assert_eq!(node.data, "ten");
    assert_eq!(node.labels.to_vec(), vec!["a".to_string(), "b".to_string()]);
    assert_eq!(node.incoming_edges.len(), 1);
    assert_eq!(node.outgoing_edges.len(), 2);
    assert_eq!(node.outgoing_edges.get(&"down".to_string()).unwrap().len(), 2);
    assert_eq!(node.outgoing_edges.get(&"side".to_string()).unwrap().len(), 1);
    assert_eq!(node.incoming_edges.get(&"up".to_string()).unwrap().get(0).target, 1);
    let all = node.convert_all_edges_to_hashset().to_vec();
    assert_eq!(all.iter().map(|e| e.target).collect::<Vec<_>>(), vec![2, 3, 4, 1]);
    assert_eq!(node.get_render_edge().target, 1);
    assert_eq!(node.last_action.action_data.main_action, "create");
    assert_eq!(
        ActionData::new("undo".to_string()).set_secondary_action("create".to_string()),
        ActionData { main_action: "undo".to_string(), secondary_action: Some("create".to_string()) }
    );
}

#[test]
fn a_builder_takes_over_what_a_creation_describes() {
    let mut record = NewNode::<String, String>::new().set_id(7);
    record.data = "seven".to_string();
    record.add_labels.insert("l".to_string());
    record.add_edges.insert(EdgeDescriptor::new(7, "t".to_string(), 8, None, EdgeDir::Emit));
    record.add_edges.insert(EdgeDescriptor::new(7, "t".to_string(), 9, None, EdgeDir::Recv));
    let (read, write) = BuildReactiveNode::<String, String, String>::new()
        .ingest_from_blueprint(record, ActionData::new("create".to_string()))
        .build();
    assert_eq!(read.id, 7);
    assert_eq!(write.id, 7);
    assert_eq!(read.data, "seven");
    assert_eq!(write.data, "seven");
    assert_eq!(read.labels.to_vec(), vec!["l".to_string()]);
    assert_eq!(read.outgoing_edges.get(&"t".to_string()).unwrap().get(0).target, 8);
    assert_eq!(read.incoming_edges.get(&"t".to_string()).unwrap().get(0).target, 9);
    assert_eq!(write.outgoing_edges.len(), 1);

    let mut lists = VecMap::new();
    lists.insert("x".to_string(), VecSet::from_vec(vec![edge(5, "x", EdgeDir::Emit, None)]));
    let with_lists = BuildReactiveNode::<String, String, String>::new()
        .id(1)
        .data("d".to_string())
        .add_last_action(created())
        .add_outgoing_edges(lists.clone())
        .add_incoming_edges(lists)
        .build()
        .0;
    assert_eq!(with_lists.outgoing_edges.len(), 1);
    assert_eq!(with_lists.incoming_edges.len(), 1);
    assert!(with_lists.labels.is_empty());
}

#[test]
fn a_search_finds_the_first_match_or_all_of_them() {
    let node = node();
    let down = EdgeFinder::new().edge_type("down".to_string());
    assert_eq!(search_map_for_edge(&down, &node.outgoing_edges).len(), 1);
    assert_eq!(search_map_for_edge(&down, &node.outgoing_edges).get(0).target, 2);
    assert_eq!(search_map_for_edge(&down.match_all(), &node.outgoing_edges).len(), 2);
    assert_eq!(search_map_for_edge(&down, &node.incoming_edges).len(), 0);
    assert_eq!(
        search_map_for_edge(&EdgeFinder::new().match_all(), &node.outgoing_edges).len(),
        3
    );

    assert!(node.search_for_edge(&EdgeFinder::new().host(11)).is_none());
    assert_eq!(node.search_for_edge(&EdgeFinder::new()).unwrap().get(0).target, 1);
    assert_eq!(node.search_for_edge(&EdgeFinder::new().match_all()).unwrap().len(), 4);
    assert_eq!(
        node.search_for_edge(&EdgeFinder::new().dir(EdgeDir::Emit).match_all()).unwrap().len(),
        3
    );
    assert!(node.search_for_edge(&EdgeFinder::new().target(99)).is_none());
    assert!(node
        .search_for_edge(&EdgeFinder::new().edge_types(vec!["side".to_string(), "up".to_string()]).match_all())
        .is_some_and(|found| found.len() == 2));
    let mut settled = EdgeFinder::<String>::new().target(99);
    settled.match_all = Some(false);
    assert!(node.search_for_edge(&settled).is_some_and(|found| found.is_empty()));
}

#[test]
fn a_change_replaces_payload_labels_and_edges() {
    let mut writer = WriteReactiveNode::from_read(node());
    let update = FinalizedUpdateNode {
        id: 10,
        replacement_data: Some(UpdateNodeReplacementData {
            new_data: "TEN".to_string(),
            prev_data: "ten".to_string(),
        }),
        add_labels: Some(VecSet::from_vec(vec!["c".to_string()])),
        remove_labels: Some(VecSet::from_vec(vec!["b".to_string()])),
        add_edges: Some(VecSet::from_vec(vec![
            edge(5, "side", EdgeDir::Emit, None),
            edge(6, "in", EdgeDir::Recv, None),
        ])),
        remove_edges: Some(VecSet::from_vec(vec![
            edge(2, "down", EdgeDir::Emit, None),
            edge(3, "down", EdgeDir::Emit, None),
            edge(44, "nowhere", EdgeDir::Emit, None),
        ])),
    };
    writer.update(update.clone(), ActionData::new("change".to_string()));
    let node = writer.into_read();
    assert_eq!(node.data, "TEN");
    assert_eq!(node.labels.to_vec(), vec!["a".to_string(), "c".to_string()]);
    assert!(node.outgoing_edges.get(&"down".to_string()).is_none());
    assert_eq!(node.outgoing_edges.get(&"side".to_string()).unwrap().len(), 2);
    assert_eq!(node.incoming_edges.get(&"in".to_string()).unwrap().len(), 1);
    assert_eq!(node.last_action.action_data.main_action, "change");
    assert_eq!(node.last_action.update_info.as_ref().unwrap().id, 10);

    let mut writer = WriteReactiveNode::from_read(node);
    writer.update(update.history_invert(), ActionData::new("undo".to_string()));
    let node = writer.into_read();
    assert_eq!(node.data, "ten");
    let mut labels = node.labels.to_vec();
    labels.sort();
    assert_eq!(labels, vec!["a".to_string(), "b".to_string()]);
    assert_eq!(node.outgoing_edges.get(&"down".to_string()).unwrap().len(), 2);
    assert_eq!(node.outgoing_edges.get(&"side".to_string()).unwrap().len(), 1);
    assert!(node.incoming_edges.get(&"in".to_string()).is_none());
}

#[test]
fn a_deletion_records_all_that_the_node_holds() {
    let node = node();
    let record = DeleteNode::from_read_reactive_node(&node);
    assert_eq!(record.id, 10);
    assert_eq!(record.data, "ten");
    assert_eq!(record.remove_labels.to_vec(), vec!["a".to_string(), "b".to_string()]);
    assert_eq!(record.remove_edges.len(), 4);
    let again = record.history_invert();
    assert_eq!(again.id, 10);
    assert_eq!(again.temp_id, None);
    assert_eq!(again.add_edges.len(), 4);
    assert_eq!(again.history_invert().remove_edges.len(), 4);
    assert_eq!(record.duplicate().data, "ten");
}
