use illogical::{IdAllocator, NodeKind, SocketKind};

const ALL: [NodeKind; 7] = [
    NodeKind::NAnd,
    NodeKind::And,
    NodeKind::Or,
    NodeKind::XOr,
    NodeKind::Not,
    NodeKind::Input(true),
    NodeKind::Display(true),
];

#[test]
fn arity_table_matches_kinds() {
    for k in ALL.iter() {
        let expected_inputs = match k {
            NodeKind::Input(_) => 0,
            NodeKind::Not | NodeKind::Display(_) => 1,
            _ => 2,
        };
        assert_eq!(k.inputs(), expected_inputs, "{:?}", k);
        assert_eq!(k.outputs(), 1, "{:?}", k);
    }
    assert_eq!(NodeKind::Input(false).inputs(), 0);
    assert_eq!(NodeKind::Display(false).inputs(), 1);
}

#[test]
fn binary_truth_tables() {
    for a in [false, true] {
        for b in [false, true] {
            assert_eq!(NodeKind::NAnd.apply_binary(a, b), Some(!(a && b)));
            assert_eq!(NodeKind::And.apply_binary(a, b), Some(a && b));
            assert_eq!(NodeKind::Or.apply_binary(a, b), Some(a || b));
            assert_eq!(NodeKind::XOr.apply_binary(a, b), Some(a != b));
        }
    }
    assert_eq!(NodeKind::NAnd.apply_binary(true, true), Some(false));
    assert_eq!(NodeKind::XOr.apply_binary(true, false), Some(true));
    assert_eq!(NodeKind::XOr.apply_binary(true, true), Some(false));
}

#[test]
fn binary_not_applicable_to_other_kinds() {
    assert_eq!(NodeKind::Not.apply_binary(true, false), None);
    assert_eq!(NodeKind::Input(true).apply_binary(true, true), None);
    assert_eq!(NodeKind::Display(false).apply_binary(false, false), None);
}

#[test]
fn unary_tables() {
    assert_eq!(NodeKind::Not.apply_unary(true), Some(false));
    assert_eq!(NodeKind::Not.apply_unary(false), Some(true));
    assert_eq!(NodeKind::Display(false).apply_unary(true), Some(true));
    assert_eq!(NodeKind::And.apply_unary(true), None);
    assert_eq!(NodeKind::Input(true).apply_unary(true), None);
}

#[test]
fn list_is_menu_order() {
    let l = NodeKind::list();
    assert_eq!(
        l,
        [
            NodeKind::Input(false),
            NodeKind::Display(false),
            NodeKind::NAnd,
            NodeKind::And,
            NodeKind::Not,
            NodeKind::Or,
            NodeKind::XOr,
        ]
    );
}

#[test]
fn labels() {
    assert_eq!(NodeKind::NAnd.label(), "NAND");
    assert_eq!(NodeKind::And.label(), "AND");
    assert_eq!(NodeKind::Or.label(), "OR");
    assert_eq!(NodeKind::XOr.label(), "XOR");
    assert_eq!(NodeKind::Not.label(), "NOT");
    assert_eq!(NodeKind::Input(true).label(), "INPUT");
    assert_eq!(NodeKind::Display(true).label(), "DISPLAY");
}

#[test]
fn is_binary_only_for_two_input_gates() {
    assert!(NodeKind::NAnd.is_binary());
    assert!(NodeKind::XOr.is_binary());
    assert!(!NodeKind::Not.is_binary());
    assert!(!NodeKind::Input(false).is_binary());
    assert!(!NodeKind::Display(false).is_binary());
}

#[test]
fn ids_are_fresh_and_increasing() {
    let mut ids = IdAllocator::new();
    assert_eq!(ids.peek(), 0);
    assert_eq!(ids.fresh(), 0);
    assert_eq!(ids.fresh(), 1);
    assert_eq!(ids.fresh(), 2);
    assert_eq!(ids.peek(), 3);
    assert_eq!(ids.remaining(), u64::MAX - 3);
}

#[test]
fn build_numbers_node_then_sockets() {
    let mut ids = IdAllocator::new();
    ids.fresh();
    let n = NodeKind::And.build(&mut ids);
    assert_eq!(n.id, 1);
    assert_eq!(n.kind, NodeKind::And);
    assert_eq!(n.inputs.len(), 2);
    assert_eq!(n.inputs[0].id, 2);
    assert_eq!(n.inputs[1].id, 3);
    assert_eq!(n.inputs[0].kind, SocketKind::Input);
    assert_eq!(n.outputs.len(), 1);
    assert_eq!(n.outputs[0].id, 4);
    assert_eq!(n.outputs[0].kind, SocketKind::Output);
    assert_eq!(ids.peek(), 5);

    let i = NodeKind::Input(true).build(&mut ids);
    assert_eq!(i.id, 5);
    assert!(i.inputs.is_empty());
    assert_eq!(i.outputs[0].id, 6);
}
