use illogical::{
    evaluate, Circuit, Node, ConnectError, DependencyGraph, Edge, IdAllocator, NodeKind, SocketKind,
    SocketRef,
};

fn out_ref(c: &Circuit, id: u64) -> SocketRef {
    let n = c.nodes().iter().find(|n| n.id == id).unwrap();
    SocketRef { node_id: id, socket_id: n.outputs[0].id }
}

fn in_ref(c: &Circuit, id: u64, k: usize) -> SocketRef {
    let n = c.nodes().iter().find(|n| n.id == id).unwrap();
    SocketRef { node_id: id, socket_id: n.inputs[k].id }
}

#[test]
fn and_of_two_inputs_follows_toggle() {
    let mut c = Circuit::new();
    let a = c.create_node(NodeKind::Input(true)).unwrap();
    let b = c.create_node(NodeKind::Input(false)).unwrap();
    let g = c.create_node(NodeKind::And).unwrap();
    assert_eq!(c.connect(out_ref(&c, a), in_ref(&c, g, 0)), Ok(()));
    assert_eq!(c.connect(out_ref(&c, b), in_ref(&c, g, 1)), Ok(()));
    assert_eq!(c.evaluate(g), Some(false));
    assert!(c.toggle_input(b));
    assert_eq!(c.evaluate(g), Some(true));
}

#[test]
fn unconnected_input_is_undefined() {
    let mut c = Circuit::new();
    let a = c.create_node(NodeKind::Input(true)).unwrap();
    let and = c.create_node(NodeKind::And).unwrap();
    let not = c.create_node(NodeKind::Not).unwrap();
    let disp = c.create_node(NodeKind::Display(false)).unwrap();
    assert_eq!(c.evaluate(and), None);
    assert_eq!(c.evaluate(not), None);
    assert_eq!(c.evaluate(disp), None);
    c.connect(out_ref(&c, a), in_ref(&c, and, 0)).unwrap();
    assert_eq!(c.evaluate(and), None);
    assert_eq!(c.evaluate(a), Some(true));
}

#[test]
fn wrong_socket_kinds_are_refused() {
    let mut c = Circuit::new();
    let a = c.create_node(NodeKind::Input(true)).unwrap();
    let n = c.create_node(NodeKind::Not).unwrap();
    let m = c.create_node(NodeKind::Not).unwrap();
    // from an input socket
    assert_eq!(c.connect(in_ref(&c, n, 0), in_ref(&c, m, 0)), Err(ConnectError::SourceNotOutput));
    // to an output socket
    assert_eq!(c.connect(out_ref(&c, a), out_ref(&c, m)), Err(ConnectError::TargetNotInput));
    // a socket that does not exist
    let ghost_ref = SocketRef { node_id: 999, socket_id: 999 };
    assert_eq!(c.connect(ghost_ref, in_ref(&c, m, 0)), Err(ConnectError::SourceNotOutput));
    assert_eq!(c.connect(out_ref(&c, a), ghost_ref), Err(ConnectError::TargetNotInput));
    assert!(c.edges().is_empty());
    assert!(!c.is_dirty());
}

#[test]
fn duplicate_connection_is_refused() {
    let mut c = Circuit::new();
    let a = c.create_node(NodeKind::Input(true)).unwrap();
    let n = c.create_node(NodeKind::Not).unwrap();
    let from = out_ref(&c, a);
    let to = in_ref(&c, n, 0);
    assert_eq!(c.connect(from, to), Ok(()));
    assert_eq!(c.connect(from, to), Err(ConnectError::Duplicate));
    assert_eq!(c.edges().len(), 1);
    assert_eq!(c.edges()[0], Edge { from, to });
    assert_eq!(c.evaluate(n), Some(false));
}

#[test]
fn not_fed_by_itself_is_undefined() {
    let mut c = Circuit::new();
    let n = c.create_node(NodeKind::Not).unwrap();
    c.connect(out_ref(&c, n), in_ref(&c, n, 0)).unwrap();
    assert_eq!(c.evaluate(n), None);
    let results = c.tick();
    assert_eq!(results, vec![(n, None)]);
}

#[test]
fn longer_cycle_is_undefined_for_every_node() {
    let mut c = Circuit::new();
    let x = c.create_node(NodeKind::Not).unwrap();
    let y = c.create_node(NodeKind::Not).unwrap();
    let d = c.create_node(NodeKind::Display(true)).unwrap();
    c.connect(out_ref(&c, x), in_ref(&c, y, 0)).unwrap();
    c.connect(out_ref(&c, y), in_ref(&c, d, 0)).unwrap();
    c.connect(out_ref(&c, d), in_ref(&c, x, 0)).unwrap();
    assert_eq!(c.evaluate(x), None);
    assert_eq!(c.evaluate(y), None);
    assert_eq!(c.evaluate(d), None);
}

#[test]
fn cycle_through_and_gate_is_undefined() {
    let mut c = Circuit::new();
    let a = c.create_node(NodeKind::Input(true)).unwrap();
    let g = c.create_node(NodeKind::And).unwrap();
    c.connect(out_ref(&c, a), in_ref(&c, g, 0)).unwrap();
    c.connect(out_ref(&c, g), in_ref(&c, g, 1)).unwrap();
    assert_eq!(c.evaluate(g), None);
    assert_eq!(c.evaluate(a), Some(true));
}

#[test]
fn display_toggle_keeps_value() {
    let mut c = Circuit::new();
    let a = c.create_node(NodeKind::Input(true)).unwrap();
    let d = c.create_node(NodeKind::Display(false)).unwrap();
    c.connect(out_ref(&c, a), in_ref(&c, d, 0)).unwrap();
    assert_eq!(c.evaluate(d), Some(true));
    assert_eq!(c.nodes()[1].kind, NodeKind::Display(true));
    assert!(c.toggle_display(d));
    assert_eq!(c.nodes()[1].kind, NodeKind::Display(false));
    assert_eq!(c.evaluate(d), Some(true));
    assert!(c.toggle_display(d));
    assert!(c.toggle_display(d));
    assert_eq!(c.evaluate(d), Some(true));
    assert!(!c.toggle_display(a));
    assert!(!c.toggle_input(d));
    assert!(!c.toggle_input(12345));
}

#[test]
fn tick_sweeps_once_and_captures_displays() {
    let mut c = Circuit::new();
    let a = c.create_node(NodeKind::Input(false)).unwrap();
    let n = c.create_node(NodeKind::Not).unwrap();
    let d = c.create_node(NodeKind::Display(false)).unwrap();
    let lone = c.create_node(NodeKind::Display(true)).unwrap();
    assert!(!c.is_dirty());
    assert!(c.tick().is_empty());
    c.connect(out_ref(&c, a), in_ref(&c, n, 0)).unwrap();
    c.connect(out_ref(&c, n), in_ref(&c, d, 0)).unwrap();
    assert!(c.is_dirty());
    let r = c.tick();
    assert_eq!(r, vec![(a, Some(false)), (n, Some(true)), (d, Some(true)), (lone, None)]);
    assert_eq!(c.nodes()[2].kind, NodeKind::Display(true));
    assert_eq!(c.nodes()[3].kind, NodeKind::Display(true));
    assert!(!c.is_dirty());
    assert!(c.tick().is_empty());

    assert!(c.toggle_input(a));
    assert!(c.is_dirty());
    let r = c.tick();
    assert_eq!(r[2], (d, Some(false)));
    assert_eq!(c.nodes()[2].kind, NodeKind::Display(false));
}

#[test]
fn operands_come_in_wire_order() {
    let mut c = Circuit::new();
    let a = c.create_node(NodeKind::Input(true)).unwrap();
    let b = c.create_node(NodeKind::Input(true)).unwrap();
    let z = c.create_node(NodeKind::Input(false)).unwrap();
    let g = c.create_node(NodeKind::NAnd).unwrap();
    c.connect(out_ref(&c, a), in_ref(&c, g, 1)).unwrap();
    c.connect(out_ref(&c, b), in_ref(&c, g, 0)).unwrap();
    c.connect(out_ref(&c, z), in_ref(&c, g, 0)).unwrap();
    // only the first two feeders count: true NAND true
    assert_eq!(c.evaluate(g), Some(false));
}

#[test]
fn graph_records_both_directions_in_wire_order() {
    let mut c = Circuit::new();
    let a = c.create_node(NodeKind::Input(true)).unwrap();
    let b = c.create_node(NodeKind::Input(false)).unwrap();
    let g = c.create_node(NodeKind::Or).unwrap();
    c.connect(out_ref(&c, a), in_ref(&c, g, 0)).unwrap();
    c.connect(out_ref(&c, b), in_ref(&c, g, 1)).unwrap();
    let graph = c.graph();
    assert_eq!(
        graph.neighbors(g).unwrap(),
        &vec![(SocketKind::Input, a), (SocketKind::Input, b)]
    );
    assert_eq!(graph.neighbors(a).unwrap(), &vec![(SocketKind::Output, g)]);
    assert_eq!(graph.neighbors(b).unwrap(), &vec![(SocketKind::Output, g)]);
    assert!(graph.neighbors(999).is_none());
    assert_eq!(illogical::feeders_of(graph, g), vec![a, b]);
    assert_eq!(c.evaluate(g), Some(true));
}

#[test]
fn add_then_remove_edge_restores_graph() {
    let mut c = Circuit::new();
    let a = c.create_node(NodeKind::Input(true)).unwrap();
    let b = c.create_node(NodeKind::Input(true)).unwrap();
    let g = c.create_node(NodeKind::Or).unwrap();
    c.connect(out_ref(&c, a), in_ref(&c, g, 0)).unwrap();
    let before_g = c.graph().neighbors(g).unwrap().clone();
    let before_a = c.graph().neighbors(a).unwrap().clone();
    let from = out_ref(&c, b);
    let to = in_ref(&c, g, 1);
    c.connect(from, to).unwrap();
    assert_eq!(c.graph().neighbors(g).unwrap().len(), 2);
    c.disconnect(Edge { from, to });
    assert_eq!(c.edges().len(), 1);
    assert_eq!(c.graph().neighbors(g).unwrap(), &before_g);
    assert_eq!(c.graph().neighbors(a).unwrap(), &before_a);
    assert!(c.graph().neighbors(b).is_none());
    assert!(c.is_dirty());
}

#[test]
fn disconnect_node_drops_all_its_wires() {
    let mut c = Circuit::new();
    let a = c.create_node(NodeKind::Input(true)).unwrap();
    let n = c.create_node(NodeKind::Not).unwrap();
    let d = c.create_node(NodeKind::Display(false)).unwrap();
    c.connect(out_ref(&c, a), in_ref(&c, n, 0)).unwrap();
    c.connect(out_ref(&c, n), in_ref(&c, d, 0)).unwrap();
    c.connect(out_ref(&c, a), in_ref(&c, d, 0)).unwrap();
    c.disconnect_node(n);
    assert_eq!(c.edges().len(), 1);
    assert_eq!(c.edges()[0].from.node_id, a);
    assert_eq!(c.edges()[0].to.node_id, d);
    assert_eq!(c.evaluate(n), None);
    assert_eq!(c.evaluate(d), Some(true));
}

#[test]
fn create_node_hands_out_consecutive_ids() {
    let mut c = Circuit::new();
    assert_eq!(c.create_node(NodeKind::And), Some(0));
    assert_eq!(c.create_node(NodeKind::Input(false)), Some(4));
    assert_eq!(c.create_node(NodeKind::Not), Some(6));
    assert_eq!(c.nodes().len(), 3);
    assert_eq!(c.nodes()[0].inputs.len(), 2);
    assert_eq!(c.nodes()[2].outputs[0].id, 8);
    assert_eq!(c.socket_kind(SocketRef { node_id: 0, socket_id: 1 }), Some(SocketKind::Input));
    assert_eq!(c.socket_kind(SocketRef { node_id: 0, socket_id: 3 }), Some(SocketKind::Output));
    assert_eq!(c.socket_kind(SocketRef { node_id: 0, socket_id: 5 }), None);
    assert_eq!(c.socket_kind(SocketRef { node_id: 77, socket_id: 1 }), None);
    assert!(!c.is_dirty());
}

#[test]
fn dangling_wire_is_undefined() {
    let mut ids = IdAllocator::new();
    let n = NodeKind::Not.build(&mut ids);
    let missing = SocketRef { node_id: 500, socket_id: 501 };
    let edges = vec![Edge { from: missing, to: SocketRef { node_id: n.id, socket_id: n.inputs[0].id } }];
    let graph = DependencyGraph::build(&edges);
    let id = n.id;
    let mut nodes = vec![n];
    assert_eq!(evaluate(&mut nodes, &graph, id), None);
    assert_eq!(evaluate(&mut nodes, &graph, 500), None);
}

#[test]
fn has_edge_reports_wires() {
    let mut c = Circuit::new();
    let a = c.create_node(NodeKind::Input(true)).unwrap();
    let n = c.create_node(NodeKind::Not).unwrap();
    let e = Edge { from: out_ref(&c, a), to: in_ref(&c, n, 0) };
    assert!(!c.has_edge(e));
    c.connect(e.from, e.to).unwrap();
    assert!(c.has_edge(e));
}

#[test]
fn evaluating_display_records_its_value() {
    let mut c = Circuit::new();
    let a = c.create_node(NodeKind::Input(true)).unwrap();
    let d = c.create_node(NodeKind::Display(false)).unwrap();
    c.connect(out_ref(&c, a), in_ref(&c, d, 0)).unwrap();
    assert_eq!(c.nodes()[1].kind, NodeKind::Display(false));
    assert_eq!(c.evaluate(d), Some(true));
    assert_eq!(c.nodes()[1].kind, NodeKind::Display(true));
}

#[test]
fn evaluating_downstream_records_displays_on_the_way() {
    let mut c = Circuit::new();
    let a = c.create_node(NodeKind::Input(false)).unwrap();
    let d = c.create_node(NodeKind::Display(false)).unwrap();
    let n = c.create_node(NodeKind::Not).unwrap();
    let lone = c.create_node(NodeKind::Display(true)).unwrap();
    c.connect(out_ref(&c, a), in_ref(&c, d, 0)).unwrap();
    c.connect(out_ref(&c, d), in_ref(&c, n, 0)).unwrap();
    assert!(c.toggle_input(a));
    assert_eq!(c.evaluate(n), Some(false));
    assert_eq!(c.nodes()[1].kind, NodeKind::Display(true));
    // an undefined display keeps what it held
    assert_eq!(c.evaluate(lone), None);
    assert_eq!(c.nodes()[3].kind, NodeKind::Display(true));
}

#[test]
fn node_eval_by_index_records_display() {
    let mut c = Circuit::new();
    let a = c.create_node(NodeKind::Input(true)).unwrap();
    let n = c.create_node(NodeKind::Not).unwrap();
    let d = c.create_node(NodeKind::Display(true)).unwrap();
    c.connect(out_ref(&c, a), in_ref(&c, n, 0)).unwrap();
    c.connect(out_ref(&c, n), in_ref(&c, d, 0)).unwrap();
    let mut nodes = c.nodes().clone();
    let graph = DependencyGraph::build(c.edges());
    assert_eq!(Node::eval(&mut nodes, &graph, 2), Some(false));
    assert_eq!(nodes[2].kind, NodeKind::Display(false));
    assert_eq!(Node::eval(&mut nodes, &graph, 1), Some(false));
    assert_eq!(Node::eval(&mut nodes, &graph, 0), Some(true));
}
