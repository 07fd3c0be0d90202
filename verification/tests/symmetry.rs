use routable_graph::blueprint::{AddBlueprintEdges, AllowedRenderEdgeSpecifier, BuildBlueprint};
use routable_graph::collections::VecSet;
use routable_graph::common::{EdgeDescriptor, EdgeDir, EdgeFinder};
use routable_graph::graph::reactive_node::build_reactive_node::BuildReactiveNode;
use routable_graph::graph::reactive_node::last_action::{ActionData, LastAction};
use routable_graph::graph::view_graph::ViewGraph;

type Graph = ViewGraph<String, String, String>;

struct Rng(u64);

impl Rng {
    fn next(&mut self, bound: u64) -> u64 {
        self.0 = self.0.wrapping_mul(6364136223846793005).wrapping_add(1442695040888963407);
        (self.0 >> 33) % bound
    }
}

fn edges_of(graph: &Graph, id: u128) -> Vec<EdgeDescriptor<String>> {
    graph.get_node(&id).unwrap().convert_all_edges_to_hashset().to_vec()
}

fn asymmetry(graph: &Graph) -> Option<String> {
    for i in 0..graph.nodes.len() {
        let id = *graph.nodes.key_at(i);
        for e in edges_of(graph, id) {
            if e.host != id {
                return Some(format!("edge {:?} stored on {}", e, id));
            }
            match graph.get_node(&e.target) {
                Err(_) => return Some(format!("edge {:?} leads nowhere", e)),
                Ok(t) => {
                    if !t.convert_all_edges_to_hashset().contains(&e.invert()) {
                        return Some(format!("edge {:?} has no mirror", e));
                    }
                }
            }
        }
    }
    None
}

fn describe(graph: &Graph) -> String {
    let mut out = String::new();
    for i in 0..graph.nodes.len() {
        let id = *graph.nodes.key_at(i);
        for e in edges_of(graph, id) {
            if e.dir == EdgeDir::Emit {
                out.push_str(&format!("{}-{}->{} {:?}; ", e.host, e.edge_type, e.target, e.render_info));
            }
        }
    }
    out
}

fn random_graph(rng: &mut Rng) -> (Graph, usize) {
    let n = 3 + rng.next(4) as usize;
    let types = ["a", "b"];
    let mut edges: Vec<Vec<EdgeDescriptor<String>>> = vec![Vec::new(); n + 1];
    for child in 2..=n {
        let parent = 1 + rng.next(child as u64 - 1) as usize;
        let t = types[rng.next(2) as usize].to_string();
        let e = EdgeDescriptor::new(parent as u128, t, child as u128, Some(EdgeDir::Emit), EdgeDir::Emit);
        edges[child].push(e.invert());
        edges[parent].push(e);
    }
    let extra = rng.next(5);
    for _ in 0..extra {
        let u = 1 + rng.next(n as u64) as usize;
        let v = 1 + rng.next(n as u64) as usize;
        if u == v {
            continue;
        }
        let t = types[rng.next(2) as usize].to_string();
        let e = EdgeDescriptor::new(u as u128, t, v as u128, None, EdgeDir::Emit);
        if edges[u].iter().any(|x| x.target == e.target && x.edge_type == e.edge_type && x.dir == e.dir) {
            continue;
        }
        edges[v].push(e.invert());
        edges[u].push(e);
    }
    let mut graph: Graph = ViewGraph::new();
    for id in 1..=n {
        let node = BuildReactiveNode::<String, String, String>::new()
            .id(id as u128)
            .data("existing".into())
            .map_edges_from_bp(&VecSet::from_vec(edges[id].clone()))
            .add_last_action(LastAction {
                action_data: ActionData::new("manual create".to_string()),
                update_info: None,
            })
            .build()
            .0;
        graph.nodes.insert(id as u128, node);
    }
    (graph, n)
}


/// Runs many transactions of one kind on graphs drawn from `seed`, applies
/// each that is sealed and adds no edge to a node that it deletes, and
/// reports how many were applied and which left an edge without its mirror
/// or a node other than the root without its one render edge.
fn run(kind: u64, seed: u64) -> (usize, Vec<String>) {
    let mut rng = Rng(seed);
    let mut failures: Vec<String> = Vec::new();
    let mut applied_count = 0;
    for round in 0..1500 {
        let (graph, n) = random_graph(&mut rng);
        assert!(asymmetry(&graph).is_none());
        let mut blueprint = BuildBlueprint::<String, String>::new();
        let mut said = String::new();
        let mut deleted = Vec::new();
        let count = rng.next(3);
        for _ in 0..count {
            let d = 1 + rng.next(n as u64) as u128;
            if !deleted.contains(&d) {
                deleted.push(d);
            }
        }
        let staying: Vec<u128> = (1..=n as u128).filter(|x| !deleted.contains(x)).collect();
        if staying.is_empty() {
            continue;
        }
        let pick = |rng: &mut Rng| staying[rng.next(staying.len() as u64) as usize];
        let dirs = [EdgeDir::Emit, EdgeDir::Recv];
        let types = ["a", "b"];
        if kind == 1 || kind == 4 {
            let times = 1 + rng.next(2);
            for k in 0..times {
                let h = pick(&mut rng);
                let dir = dirs[rng.next(2) as usize].clone();
                let t = types[rng.next(2) as usize].to_string();
                let id = 100 + k as u128;
                said.push_str(&format!("new {} at {} {:?} {}; ", id, h, dir, t));
                blueprint = blueprint
                    .start_with_update_node(h)
                    .add_edge_new(dir, t, move |x| x.set_id(id))
                    .blueprint;
            }
        }
        if kind == 2 || kind == 4 {
            let h = pick(&mut rng);
            let o = pick(&mut rng);
            if h != o {
                let dir = dirs[rng.next(2) as usize].clone();
                let t = "c".to_string();
                said.push_str(&format!("link {} to {} {:?} {}; ", h, o, dir, t));
                blueprint = blueprint
                    .start_with_update_node(h)
                    .add_edge_existing(dir, t, o, |x| x)
                    .blueprint;
            }
        }
        if kind == 3 || kind == 4 {
            let h = pick(&mut rng);
            let o = pick(&mut rng);
            said.push_str(&format!("unlink {} from {}; ", h, o));
            blueprint = blueprint
                .start_with_update_node(h)
                .remove_edge(EdgeFinder::new().target(o))
                .blueprint;
        }
        for d in deleted.iter() {
            blueprint.delete_node(*d);
        }
        let specifiers = match rng.next(3) {
            0 => None,
            1 => Some(vec![AllowedRenderEdgeSpecifier { edge_type: "a".to_string(), dir: EdgeDir::Emit }]),
            _ => Some(vec![
                AllowedRenderEdgeSpecifier { edge_type: "b".to_string(), dir: EdgeDir::Emit },
                AllowedRenderEdgeSpecifier { edge_type: "a".to_string(), dir: EdgeDir::Recv },
            ]),
        };
        let shown = format!(
            "round {} graph [{}] {} delete {:?} specifiers {:?}",
            round,
            describe(&graph),
            said,
            deleted,
            specifiers
        );
        match blueprint.finalize(&graph, specifiers, None) {
            Err(_) => {}
            Ok(sealed) => {
                let gone: Vec<u128> = (1..=n as u128).filter(|x| sealed.delete_nodes.get(x).is_some()).collect();
                let mut dangling = false;
                for i in 0..sealed.new_nodes.len() {
                    let node = sealed.new_nodes.value_at(i);
                    if sealed.delete_nodes.get(&node.id).is_none() {
                        for e in node.add_edges.to_vec() {
                            if sealed.delete_nodes.get(&e.target).is_some() {
                                dangling = true;
                            }
                        }
                    }
                }
                for i in 0..sealed.update_nodes.len() {
                    let node = sealed.update_nodes.value_at(i);
                    if sealed.delete_nodes.get(&node.id).is_none() {
                        if let Some(adds) = &node.add_edges {
                            for e in adds.to_vec() {
                                if sealed.delete_nodes.get(&e.target).is_some() {
                                    dangling = true;
                                }
                            }
                        }
                    }
                }
                if dangling {
                    continue;
                }
                applied_count += 1;
                let mut after = graph.duplicate();
                match after.apply(sealed, ActionData::new("apply".to_string())) {
                    Err(e) => failures.push(format!("{} -> apply failed {:?}", shown, e)),
                    Ok(()) => {
                        for i in 0..after.nodes.len() {
                            let id = *after.nodes.key_at(i);
                            let parents = edges_of(&after, id)
                                .into_iter()
                                .filter(|e| e.render_info == Some(EdgeDir::Recv))
                                .count();
                            if parents != if id == 1 { 0 } else { 1 } {
                                failures.push(format!(
                                    "{} -> node {} has {} render parents after [{}]",
                                    shown,
                                    id,
                                    parents,
                                    describe(&after)
                                ));
                            }
                        }
                        if let Some(what) = asymmetry(&after) {
                            failures.push(format!(
                                "{} -> {} gone {:?} after [{}]",
                                shown,
                                what,
                                gone,
                                describe(&after)
                            ));
                        }
                    }
                }
            }
        }
    }
    (applied_count, failures)
}

fn assert_all_mirrored(kind: u64, seed: u64) {
    let (applied, failures) = run(kind, seed);
    let first: Vec<&String> = failures.iter().take(4).collect();
    assert!(applied > 50, "only {} transactions were applied", applied);
    assert!(failures.is_empty(), "{} of {} failed: {:#?}", failures.len(), applied, first);
}

#[test]
fn deletions_leave_every_edge_with_its_mirror() {
    assert_all_mirrored(0, 781);
}

#[test]
fn deletions_beside_new_nodes_leave_every_edge_with_its_mirror() {
    assert_all_mirrored(1, 777);
}

#[test]
fn deletions_beside_new_edges_leave_every_edge_with_its_mirror() {
    assert_all_mirrored(2, 778);
}

#[test]
fn deletions_beside_removed_edges_leave_every_edge_with_its_mirror() {
    assert_all_mirrored(3, 779);
}

#[test]
fn mixed_transactions_leave_every_edge_with_its_mirror() {
    assert_all_mirrored(4, 780);
}

#[test]
fn an_edge_added_to_a_node_that_is_deleted_is_left_without_mirror() {
    // (1) renders (2), and the transaction links (1) to (2) while deleting (2).
    let mut edges: Vec<Vec<EdgeDescriptor<String>>> = vec![Vec::new(); 3];
    let e = EdgeDescriptor::new(1, "a".to_string(), 2, Some(EdgeDir::Emit), EdgeDir::Emit);
    edges[2].push(e.invert());
    edges[1].push(e);
    let mut graph: Graph = ViewGraph::new();
    for id in 1..=2usize {
        let node = BuildReactiveNode::<String, String, String>::new()
            .id(id as u128)
            .data("existing".into())
            .map_edges_from_bp(&VecSet::from_vec(edges[id].clone()))
            .add_last_action(LastAction {
                action_data: ActionData::new("manual create".to_string()),
                update_info: None,
            })
            .build()
            .0;
        graph.nodes.insert(id as u128, node);
    }
    let mut blueprint = BuildBlueprint::<String, String>::new()
        .start_with_update_node(1)
        .add_edge_existing(EdgeDir::Emit, "c".to_string(), 2, |x| x)
        .blueprint;
    blueprint.delete_node(2);
    let sealed = blueprint.finalize(&graph, None, None).unwrap();
    graph.apply(sealed, ActionData::new("apply".to_string())).unwrap();
    assert!(graph.get_node(&2).is_err());
    assert_eq!(
        edges_of(&graph, 1),
        vec![EdgeDescriptor::new(1, "c".to_string(), 2, None, EdgeDir::Emit)]
    );
    assert!(asymmetry(&graph).is_some());
}

/// What a deletion of `deleted` should leave of `graph`: the nodes that
/// are not rendered through a deleted node, and those that a chain of
/// edges that may render leads to from them. The edge through which a
/// node was rendered is no link of such a chain.
fn survivors(
    graph: &Graph,
    n: usize,
    deleted: &[u128],
    specifiers: &Option<Vec<AllowedRenderEdgeSpecifier<String>>>,
) -> Vec<u128> {
    let may_render = |e: &EdgeDescriptor<String>| match specifiers {
        None => e.dir == EdgeDir::Emit,
        Some(list) => list.iter().any(|s| s.edge_type == e.edge_type && s.dir == e.dir),
    };
    let mut cut_off: Vec<u128> = deleted.to_vec();
    let mut grown = true;
    while grown {
        grown = false;
        for id in 1..=n as u128 {
            if cut_off.contains(&id) {
                continue;
            }
            let parent = edges_of(graph, id)
                .into_iter()
                .find(|e| e.render_info == Some(EdgeDir::Recv))
                .map(|e| e.target);
            if let Some(p) = parent {
                if cut_off.contains(&p) {
                    cut_off.push(id);
                    grown = true;
                }
            }
        }
    }
    let mut reached: Vec<u128> = (1..=n as u128).filter(|id| !cut_off.contains(id)).collect();
    let mut grown = true;
    while grown {
        grown = false;
        for host in reached.clone() {
            for e in edges_of(graph, host) {
                if may_render(&e)
                    && e.render_info != Some(EdgeDir::Recv)
                    && !deleted.contains(&e.target)
                    && !reached.contains(&e.target)
                {
                    reached.push(e.target);
                    grown = true;
                }
            }
        }
    }
    reached.sort();
    reached
}

#[test]
fn deletions_succeed_and_delete_exactly_what_is_cut_off() {
    let mut rng = Rng(4242);
    let mut with_rescue = 0;
    for round in 0..2000 {
        let (graph, n) = random_graph(&mut rng);
        let mut deleted: Vec<u128> = Vec::new();
        for _ in 0..1 + rng.next(2) {
            let d = 1 + rng.next(n as u64) as u128;
            if !deleted.contains(&d) {
                deleted.push(d);
            }
        }
        let specifiers = match rng.next(3) {
            0 => None,
            1 => Some(vec![AllowedRenderEdgeSpecifier { edge_type: "a".to_string(), dir: EdgeDir::Emit }]),
            _ => Some(vec![
                AllowedRenderEdgeSpecifier { edge_type: "b".to_string(), dir: EdgeDir::Emit },
                AllowedRenderEdgeSpecifier { edge_type: "a".to_string(), dir: EdgeDir::Recv },
            ]),
        };
        let expected = survivors(&graph, n, &deleted, &specifiers);
        let mut blueprint = BuildBlueprint::<String, String>::new();
        for d in deleted.iter() {
            blueprint.delete_node(*d);
        }
        let shown = format!(
            "round {} graph [{}] delete {:?} specifiers {:?}",
            round,
            describe(&graph),
            deleted,
            specifiers
        );
        let sealed = match blueprint.finalize(&graph, specifiers, None) {
            Ok(sealed) => sealed,
            Err(errors) => panic!("{} -> {:?}", shown, errors),
        };
        assert!(sealed.new_nodes.is_empty(), "{}", shown);
        let mut after = graph.duplicate();
        after.apply(sealed, ActionData::new("apply".to_string())).unwrap();
        let mut left: Vec<u128> = (0..after.nodes.len()).map(|i| *after.nodes.key_at(i)).collect();
        left.sort();
        assert_eq!(left, expected, "{}", shown);
        if left.len() + deleted.len() < n {
            with_rescue += 1;
        }
        // Every node that is left is rendered from the root.
        for id in left.iter() {
            let mut at = *id;
            let mut steps = 0;
            while at != 1 {
                let parents: Vec<u128> = edges_of(&after, at)
                    .into_iter()
                    .filter(|e| e.render_info == Some(EdgeDir::Recv))
                    .map(|e| e.target)
                    .collect();
                assert_eq!(parents.len(), 1, "{} node {}", shown, at);
                at = parents[0];
                steps += 1;
                assert!(steps <= n, "{} render edges go round at {}", shown, id);
            }
        }
    }
    assert!(with_rescue > 100);
}
