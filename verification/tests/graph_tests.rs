use rust2genshin::graph::{
    Block, Connection, Link, Node, NodeGraph, NodeGraphKind, NodeId, NodeKind, NodeRef, ValueIn,
};
use rust2genshin::ids::{AssetKind, Side};
use rust2genshin::value::{AnyValue, ValueBool, ValueInt};

fn int_type() -> AnyValue {
    AnyValue::Int(ValueInt(0))
}

fn graph() -> NodeGraph {
    NodeGraph::new(NodeGraphKind::ServerEntity, String::from("main"))
}

#[test]
fn node_ref_encoding_starts_at_one() {
    assert_eq!(NodeRef(0).encode(), 1);
    assert_eq!(NodeRef(41).encode(), 42);
    assert_eq!(NodeRef::decode(1), NodeRef(0));
    assert_eq!(NodeRef::decode(NodeRef(7).encode()), NodeRef(7));
}

#[test]
fn graph_kind_runs_on_server() {
    assert_eq!(NodeGraphKind::ServerEntity.side(), Side::Server);
}

#[test]
fn link_accessors() {
    let c = Connection(NodeRef(3), 2);
    assert_eq!(c.node(), NodeRef(3));
    assert_eq!(c.pin(), 2);
    assert_eq!(Link::Connection(c).connection(), Some(c));
    assert_eq!(Link::Connection(c).export(), None);
    assert_eq!(Link::Export(4).export(), Some(4));
    assert_eq!(Link::Export(4).connection(), None);
}

#[test]
fn new_node_has_unset_pins() {
    let n = Node::new(NodeKind::func(5, vec![int_type(), int_type()], int_type()));
    assert_eq!(n.controls_in.len(), 1);
    assert_eq!(n.controls_out.len(), 1);
    assert_eq!(n.values_in.len(), 2);
    assert_eq!(n.values_out.len(), 1);
    assert!(n.values_in.iter().all(|v| v.is_unset()));
    assert_eq!(n.kind.id, NodeId::Low { kind: AssetKind::SysCallStub, id: 5 });
    assert_eq!(n.kind.kernel_id, 5);
}

#[test]
fn control_links_are_kept_on_both_ends() {
    let mut g = graph();
    let a = g.insert(Node::new(NodeKind::procedure(1, vec![])));
    let b = g.insert(Node::new(NodeKind::procedure(2, vec![])));
    g.connect_control(Connection(a, 0), Connection(b, 0));
    assert_eq!(g.get_node(a).controls_out[0], vec![Link::Connection(Connection(b, 0))]);
    assert_eq!(g.get_node(b).controls_in[0], vec![Link::Connection(Connection(a, 0))]);
}

#[test]
fn value_input_keeps_one_source() {
    let mut g = graph();
    let a = g.insert(Node::new(NodeKind::expr(1, vec![], int_type())));
    let b = g.insert(Node::new(NodeKind::expr(2, vec![], int_type())));
    let c = g.insert(Node::new(NodeKind::expr(3, vec![int_type()], int_type())));
    g.connect_value(Connection(a, 0), Connection(c, 0));
    g.connect_value(Connection(b, 0), Connection(c, 0));
    assert!(g.get_node(a).values_out[0].is_empty());
    assert_eq!(g.get_node(b).values_out[0], vec![Link::Connection(Connection(c, 0))]);
    assert_eq!(g.get_node(c).values_in[0].link, Some(Link::Connection(Connection(b, 0))));
}

#[test]
fn removing_a_node_drops_its_links() {
    let mut g = graph();
    let a = g.insert(Node::new(NodeKind::func(1, vec![], int_type())));
    let b = g.insert(Node::new(NodeKind::func(2, vec![int_type()], int_type())));
    g.connect_control(Connection(a, 0), Connection(b, 0));
    g.connect_value(Connection(a, 0), Connection(b, 0));
    let removed = g.remove(a);
    assert_eq!(removed.controls_out[0], vec![Link::Connection(Connection(b, 0))]);
    assert!(g.get_node(b).controls_in[0].is_empty());
    assert_eq!(g.get_node(b).values_in[0].link, None);
    assert_eq!(g.get_nodes(), vec![b]);
}

#[test]
fn exported_value_output_has_one_inner_source() {
    let mut g = graph();
    let a = g.insert(Node::new(NodeKind::expr(1, vec![], int_type())));
    let b = g.insert(Node::new(NodeKind::expr(2, vec![], int_type())));
    g.export_value_out(Connection(a, 0), 0);
    g.export_value_out(Connection(b, 0), 0);
    assert!(g.get_node(a).values_out[0].is_empty());
    assert_eq!(g.get_node(b).values_out[0], vec![Link::Export(0)]);
}

#[test]
fn set_value_in_sets_default_and_link() {
    let mut g = graph();
    let a = g.insert(Node::new(NodeKind::expr(1, vec![], int_type())));
    let b = g.insert(Node::new(NodeKind::expr(2, vec![int_type()], int_type())));
    g.set_value_in(Connection(b, 0), ValueIn::value(AnyValue::Int(ValueInt(9))));
    assert!(matches!(g.get_node(b).values_in[0].default, Some(AnyValue::Int(ValueInt(9)))));
    g.set_value_in(Connection(b, 0), ValueIn::link(Link::Connection(Connection(a, 0))));
    assert_eq!(g.get_node(b).values_in[0].link, Some(Link::Connection(Connection(a, 0))));
    assert_eq!(g.get_node(a).values_out[0], vec![Link::Connection(Connection(b, 0))]);
}

#[test]
fn block_extension_links_end_to_begin() {
    let mut g = graph();
    let a = g.insert(Node::new(NodeKind::procedure(1, vec![])));
    let b = g.insert(Node::new(NodeKind::procedure(2, vec![])));
    let mut first = Block::singleton(a, 0);
    assert_eq!(first.begin, Connection(a, 0));
    assert_eq!(first.end, Connection(a, 0));
    first.extend(&mut g, Block::singleton(b, 0));
    assert_eq!(first.begin, Connection(a, 0));
    assert_eq!(first.end, Connection(b, 0));
    assert_eq!(g.get_node(b).controls_in[0], vec![Link::Connection(Connection(a, 0))]);
}

#[test]
fn neighbors_are_listed_once() {
    let mut g = graph();
    let a = g.insert(Node::new(NodeKind::func(1, vec![], int_type())));
    let b = g.insert(Node::new(NodeKind::func(2, vec![int_type()], int_type())));
    g.connect_control(Connection(a, 0), Connection(b, 0));
    g.connect_value(Connection(a, 0), Connection(b, 0));
    assert_eq!(g.get_node(a).get_neighbors(), vec![b]);
    assert_eq!(g.get_node(b).get_neighbors(), vec![a]);
}

#[test]
fn boolean_defaults_are_accepted_by_boolean_inputs() {
    let mut g = graph();
    let a = g.insert(Node::new(NodeKind::expr(1, vec![AnyValue::Bool(ValueBool(false))], int_type())));
    g.set_default(Connection(a, 0), AnyValue::Bool(ValueBool(true)));
    assert!(matches!(g.get_node(a).values_in[0].default, Some(AnyValue::Bool(ValueBool(true)))));
}

#[test]
fn nop_block_is_an_if_on_true() {
    let mut g = graph();
    let b = Block::nop(&mut g);
    assert_eq!(b.begin, b.end);
    assert_eq!(b.begin.pin(), 0);
    let n = g.get_node(b.begin.node());
    assert_eq!(n.kind.id, NodeId::Low { kind: AssetKind::SysCallStub, id: 2 });
    assert!(matches!(n.values_in[0].default, Some(AnyValue::Bool(ValueBool(true)))));
    assert!(n.values_in[0].link.is_none());
}

#[test]
fn fresh_graph_keys_count_up() {
    let mut g = graph();
    let a = g.insert(Node::new(NodeKind::procedure(1, vec![])));
    let b = g.insert(Node::new(NodeKind::procedure(2, vec![])));
    g.connect_control(Connection(a, 0), Connection(b, 0));
    let c = g.insert(Node::new(NodeKind::procedure(3, vec![])));
    assert_eq!((a, b, c), (NodeRef(0), NodeRef(1), NodeRef(2)));
    assert_eq!((a.encode(), b.encode(), c.encode()), (1, 2, 3));
}

#[test]
fn block_extension_is_associative() {
    let build = || {
        let mut g = graph();
        let p = g.insert(Node::new(NodeKind::procedure(1, vec![])));
        let q = g.insert(Node::new(NodeKind::procedure(2, vec![])));
        let r = g.insert(Node::new(NodeKind::procedure(3, vec![])));
        (g, Block::singleton(p, 0), Block::singleton(q, 0), Block::singleton(r, 0))
    };
    let (mut g1, mut a1, o1, o2) = build();
    a1.extend(&mut g1, o1);
    a1.extend(&mut g1, o2);
    let (mut g2, mut a2, mut p1, p2) = build();
    p1.extend(&mut g2, p2);
    a2.extend(&mut g2, p1);
    assert_eq!(a1, a2);
    assert_eq!(a1, Block { begin: Connection(NodeRef(0), 0), end: Connection(NodeRef(2), 0) });
    for k in 0..3 {
        let n1 = g1.get_node(NodeRef(k));
        let n2 = g2.get_node(NodeRef(k));
        assert_eq!(n1.controls_in, n2.controls_in);
        assert_eq!(n1.controls_out, n2.controls_out);
    }
    assert_eq!(g1.get_node(NodeRef(1)).controls_out[0], vec![Link::Connection(Connection(NodeRef(2), 0))]);
}

#[test]
fn removed_keys_are_taken_again_last_first() {
    let mut g = graph();
    let keys: Vec<NodeRef> = (1..=3).map(|i| g.insert(Node::new(NodeKind::procedure(i, vec![])))).collect();
    assert_eq!(keys, vec![NodeRef(0), NodeRef(1), NodeRef(2)]);
    g.remove(NodeRef(1));
    g.remove(NodeRef(0));
    let again: Vec<NodeRef> = (4..=6).map(|i| g.insert(Node::new(NodeKind::procedure(i, vec![])))).collect();
    assert_eq!(again, vec![NodeRef(0), NodeRef(1), NodeRef(3)]);
}

#[test]
fn block_extension_on_a_shared_pin_gives_the_same_links() {
    let build = || {
        let mut g = graph();
        let p = g.insert(Node::new(NodeKind::procedure(1, vec![])));
        let q = g.insert(Node::new(NodeKind::procedure(2, vec![])));
        let r = g.insert(Node::new(NodeKind::procedure(3, vec![])));
        let o1 = Block { begin: Connection(q, 0), end: Connection(p, 0) };
        (g, Block::singleton(p, 0), o1, Block::singleton(r, 0))
    };
    let (mut g1, mut a1, o1, o2) = build();
    a1.extend(&mut g1, o1);
    a1.extend(&mut g1, o2);
    let (mut g2, mut a2, mut p1, p2) = build();
    p1.extend(&mut g2, p2);
    a2.extend(&mut g2, p1);
    assert_eq!(a1, a2);
    let mut l1 = g1.get_node(NodeRef(0)).controls_out[0].clone();
    let mut l2 = g2.get_node(NodeRef(0)).controls_out[0].clone();
    assert_eq!(l1, vec![Link::Connection(Connection(NodeRef(1), 0)), Link::Connection(Connection(NodeRef(2), 0))]);
    assert_eq!(l2, vec![Link::Connection(Connection(NodeRef(2), 0)), Link::Connection(Connection(NodeRef(1), 0))]);
    let key = |l: &Link| match l { Link::Connection(Connection(n, i)) => (n.0, *i), Link::Export(e) => (usize::MAX, *e) };
    l1.sort_by_key(key);
    l2.sort_by_key(key);
    assert_eq!(l1, l2);
    for k in 1..3 {
        assert_eq!(g1.get_node(NodeRef(k)).controls_in, g2.get_node(NodeRef(k)).controls_in);
    }
}
