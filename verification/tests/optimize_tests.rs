use rust2genshin::composite::CompositeNodeGraph;
use rust2genshin::graph::{Connection, Link, Node, NodeGraph, NodeGraphKind, NodeId, NodeKind, NodeRef, ValueIn};
use rust2genshin::optimize::{node_ir_unreachable, FnDecl, Optimizer, ProxyOut};
use rust2genshin::value::{AnyValue, ValueBool, ValueInt, ValueLocalVarRef};

fn bool_type() -> AnyValue {
    AnyValue::Bool(ValueBool(false))
}

fn int_type() -> AnyValue {
    AnyValue::Int(ValueInt(0))
}

fn optimizer(outputs: usize) -> Optimizer {
    let mut proxies_out = Vec::new();
    for _ in 0..outputs {
        proxies_out.push(None);
    }
    Optimizer {
        graph: CompositeNodeGraph::new(NodeGraph::new(NodeGraphKind::ServerEntity, String::from("f"))),
        decl: FnDecl { control: true, proxies_in: vec![0], proxies_out },
    }
}

fn add(o: &mut Optimizer, kind: NodeKind) -> NodeRef {
    o.graph.graph.insert(Node::new(kind))
}

fn if_kind() -> NodeKind {
    NodeKind::new(2, 1, 2, vec![bool_type()], vec![])
}

fn not_kind() -> NodeKind {
    NodeKind::expr(229, vec![bool_type()], bool_type())
}

fn local_kind() -> NodeKind {
    NodeKind::full(
        NodeId::Local,
        0,
        0,
        0,
        vec![Some(int_type())],
        vec![AnyValue::LocalVarRef(ValueLocalVarRef), int_type()],
    )
}

fn set_local_kind() -> NodeKind {
    NodeKind::full(
        NodeId::SetLocal,
        0,
        1,
        1,
        vec![Some(AnyValue::LocalVarRef(ValueLocalVarRef)), Some(int_type())],
        vec![],
    )
}

fn conn(n: NodeRef, pin: usize) -> Link {
    Link::Connection(Connection(n, pin))
}

#[test]
fn unreachable_node_has_one_control_input() {
    let k = node_ir_unreachable();
    assert_eq!(k.id, NodeId::Unreachable);
    assert_eq!((k.controls_in_num, k.controls_out_num), (1, 0));
    assert!(k.values_in_types.is_empty() && k.values_out_types.is_empty());
}

#[test]
fn relinking_interface_to_interface_drops_the_control_pins() {
    let mut o = optimizer(0);
    o.relink_control(Link::Export(0), Link::Export(0));
    assert!(!o.decl.control);
}

#[test]
fn relinking_links_every_source_to_every_target() {
    let mut o = optimizer(0);
    let a = add(&mut o, NodeKind::procedure(1, vec![]));
    let b = add(&mut o, NodeKind::procedure(2, vec![]));
    let c = add(&mut o, NodeKind::procedure(3, vec![]));
    o.relink_controls(&vec![conn(a, 0), Link::Export(0)], &vec![conn(b, 0), conn(c, 0)]);
    assert_eq!(o.graph.graph.get_node(a).controls_out[0], vec![conn(b, 0), conn(c, 0)]);
    assert_eq!(o.graph.graph.get_node(b).controls_in[0], vec![conn(a, 0), Link::Export(0)]);
    assert_eq!(o.graph.graph.get_node(c).controls_in[0], vec![conn(a, 0), Link::Export(0)]);
    assert!(o.decl.control);
}

#[test]
fn constant_if_leads_to_its_branch() {
    for (cond, taken, skipped) in [(true, 1usize, 2usize), (false, 2, 1)] {
        let mut o = optimizer(0);
        let a = add(&mut o, NodeKind::procedure(1, vec![]));
        let i = add(&mut o, if_kind());
        let yes = add(&mut o, NodeKind::procedure(2, vec![]));
        let no = add(&mut o, NodeKind::procedure(3, vec![]));
        o.graph.graph.connect_control(Connection(a, 0), Connection(i, 0));
        o.graph.graph.connect_control(Connection(i, 0), Connection(yes, 0));
        o.graph.graph.connect_control(Connection(i, 1), Connection(no, 0));
        o.graph.graph.set_default(Connection(i, 0), AnyValue::Bool(ValueBool(cond)));
        assert_eq!(o.eliminate_if(i), None);
        assert_eq!(o.graph.graph.get_nodes().len(), 3);
        let branches = [a, yes, no];
        let target = if taken == 1 { branches[1] } else { branches[2] };
        let other = if skipped == 1 { branches[1] } else { branches[2] };
        assert_eq!(o.graph.graph.get_node(a).controls_out[0], vec![conn(target, 0)]);
        assert!(o.graph.graph.get_node(other).controls_in[0].is_empty());
    }
}

#[test]
fn if_with_linked_condition_stays() {
    let mut o = optimizer(0);
    let i = add(&mut o, if_kind());
    let cond = add(&mut o, NodeKind::expr(9, vec![], bool_type()));
    o.graph.graph.connect_value(Connection(cond, 0), Connection(i, 0));
    assert_eq!(o.eliminate_if(i), Some(()));
    assert_eq!(o.graph.graph.get_nodes().len(), 2);
}

#[test]
fn unused_calculation_is_dropped() {
    let mut o = optimizer(0);
    let unused = add(&mut o, NodeKind::expr(7, vec![int_type()], int_type()));
    let used = add(&mut o, NodeKind::expr(7, vec![int_type()], int_type()));
    let user = add(&mut o, NodeKind::procedure(8, vec![int_type()]));
    o.graph.graph.connect_value(Connection(used, 0), Connection(user, 0));
    assert_eq!(o.eliminate_calc(unused), None);
    assert_eq!(o.eliminate_calc(used), Some(()));
    assert_eq!(o.eliminate_calc(user), Some(()));
    assert_eq!(o.graph.graph.get_nodes(), vec![used, user]);
}

#[test]
fn write_to_unread_variable_is_dropped() {
    let mut o = optimizer(0);
    let local = add(&mut o, local_kind());
    let before = add(&mut o, NodeKind::procedure(1, vec![]));
    let set = add(&mut o, set_local_kind());
    let after = add(&mut o, NodeKind::procedure(2, vec![]));
    o.graph.graph.connect_value(Connection(local, 0), Connection(set, 0));
    o.graph.graph.connect_control(Connection(before, 0), Connection(set, 0));
    o.graph.graph.connect_control(Connection(set, 0), Connection(after, 0));
    assert_eq!(o.eliminate_set_local(set), None);
    assert_eq!(o.graph.graph.get_node(before).controls_out[0], vec![conn(after, 0)]);
    assert!(o.graph.graph.get_node(local).values_out[0].is_empty());
}

#[test]
fn write_to_read_variable_stays() {
    let mut o = optimizer(0);
    let local = add(&mut o, local_kind());
    let set = add(&mut o, set_local_kind());
    let reader = add(&mut o, NodeKind::procedure(2, vec![int_type()]));
    o.graph.graph.connect_value(Connection(local, 0), Connection(set, 0));
    o.graph.graph.connect_value(Connection(local, 1), Connection(reader, 0));
    assert_eq!(o.eliminate_set_local(set), Some(()));
    assert_eq!(o.graph.graph.get_nodes().len(), 3);
}

#[test]
fn variable_without_reference_gives_its_initial_value() {
    let mut o = optimizer(0);
    let local = add(&mut o, local_kind());
    let reader = add(&mut o, NodeKind::procedure(2, vec![int_type()]));
    o.graph.graph.set_default(Connection(local, 0), AnyValue::Int(ValueInt(7)));
    o.graph.graph.connect_value(Connection(local, 1), Connection(reader, 0));
    assert_eq!(o.eliminate_local(local), None);
    assert_eq!(o.graph.graph.get_nodes(), vec![reader]);
    let input = &o.graph.graph.get_node(reader).values_in[0];
    assert!(input.link.is_none());
    assert!(matches!(input.default, Some(AnyValue::Int(ValueInt(7)))));
}

#[test]
fn variable_value_for_the_interface_becomes_a_constant_proxy() {
    let mut o = optimizer(1);
    let local = add(&mut o, local_kind());
    o.graph.graph.set_default(Connection(local, 0), AnyValue::Int(ValueInt(5)));
    o.graph.graph.export_value_out(Connection(local, 1), 0);
    assert_eq!(o.eliminate_local(local), None);
    assert!(o.graph.graph.is_empty());
    assert!(matches!(o.decl.proxies_out[0], Some(ProxyOut::Constant(Some(AnyValue::Int(ValueInt(5)))))));
}

#[test]
fn double_negation_is_skipped() {
    let mut o = optimizer(0);
    let x = add(&mut o, NodeKind::expr(9, vec![], bool_type()));
    let inner = add(&mut o, not_kind());
    let outer = add(&mut o, not_kind());
    let reader = add(&mut o, NodeKind::procedure(2, vec![bool_type()]));
    o.graph.graph.connect_value(Connection(x, 0), Connection(inner, 0));
    o.graph.graph.connect_value(Connection(inner, 0), Connection(outer, 0));
    o.graph.graph.connect_value(Connection(outer, 0), Connection(reader, 0));
    assert_eq!(o.eliminate_not_not(outer), None);
    assert_eq!(o.graph.graph.get_node(reader).values_in[0].link, Some(conn(x, 0)));
    assert!(o.graph.graph.get_node(outer).values_out[0].is_empty());
    assert_eq!(o.eliminate_not_not(inner), Some(()));
}

#[test]
fn split_of_an_assembly_reads_the_assembled_fields() {
    let mut o = optimizer(1);
    let a = add(&mut o, NodeKind::expr(9, vec![], int_type()));
    let joined = add(&mut o, NodeKind::full(NodeId::Assemble, 0, 0, 0, vec![Some(int_type()), Some(bool_type())], vec![int_type()]));
    let split = add(&mut o, NodeKind::full(NodeId::Destructure, 0, 0, 0, vec![Some(int_type())], vec![int_type(), bool_type()]));
    let r0 = add(&mut o, NodeKind::procedure(2, vec![int_type()]));
    o.graph.graph.connect_value(Connection(a, 0), Connection(joined, 0));
    o.graph.graph.set_value_in(Connection(joined, 1), ValueIn::value(AnyValue::Bool(ValueBool(true))));
    o.graph.graph.connect_value(Connection(joined, 0), Connection(split, 0));
    o.graph.graph.connect_value(Connection(split, 0), Connection(r0, 0));
    o.graph.graph.export_value_out(Connection(split, 1), 0);
    assert_eq!(o.eliminate_destructure(split), None);
    assert_eq!(o.graph.graph.get_nodes().len(), 3);
    assert_eq!(o.graph.graph.get_node(r0).values_in[0].link, Some(conn(a, 0)));
    assert!(matches!(o.decl.proxies_out[0], Some(ProxyOut::Constant(Some(AnyValue::Bool(ValueBool(true)))))));
}

#[test]
fn assembly_of_a_split_reads_the_split_structure() {
    let mut o = optimizer(0);
    let s = add(&mut o, NodeKind::expr(9, vec![], int_type()));
    let split = add(&mut o, NodeKind::full(NodeId::Destructure, 0, 0, 0, vec![Some(int_type())], vec![int_type(), bool_type()]));
    let joined = add(&mut o, NodeKind::full(NodeId::Assemble, 0, 0, 0, vec![Some(int_type()), Some(bool_type())], vec![int_type()]));
    let reader = add(&mut o, NodeKind::procedure(2, vec![int_type()]));
    o.graph.graph.connect_value(Connection(s, 0), Connection(split, 0));
    o.graph.graph.connect_value(Connection(split, 0), Connection(joined, 0));
    o.graph.graph.connect_value(Connection(split, 1), Connection(joined, 1));
    o.graph.graph.connect_value(Connection(joined, 0), Connection(reader, 0));
    assert_eq!(o.eliminate_assemble(joined), None);
    assert_eq!(o.graph.graph.get_nodes().len(), 3);
    assert_eq!(o.graph.graph.get_node(reader).values_in[0].link, Some(conn(s, 0)));
}

#[test]
fn assembly_of_other_fields_stays() {
    let mut o = optimizer(0);
    let split = add(&mut o, NodeKind::full(NodeId::Destructure, 0, 0, 0, vec![Some(int_type())], vec![int_type(), int_type()]));
    let joined = add(&mut o, NodeKind::full(NodeId::Assemble, 0, 0, 0, vec![Some(int_type()), Some(int_type())], vec![int_type()]));
    o.graph.graph.connect_value(Connection(split, 1), Connection(joined, 0));
    o.graph.graph.connect_value(Connection(split, 0), Connection(joined, 1));
    assert_eq!(o.eliminate_assemble(joined), Some(()));
    let empty = add(&mut o, NodeKind::full(NodeId::Assemble, 0, 0, 0, vec![], vec![int_type()]));
    assert_eq!(o.eliminate_assemble(empty), None);
    assert_eq!(o.graph.graph.get_nodes().len(), 3);
}

#[test]
fn reset_value_gives_an_interface_output_its_proxy() {
    let mut o = optimizer(2);
    let a = add(&mut o, NodeKind::expr(9, vec![], int_type()));
    o.graph.graph.export_value_out(Connection(a, 0), 0);
    o.reset_value(Link::Export(0), ValueIn::link(Link::Export(3)));
    assert!(o.graph.graph.get_node(a).values_out[0].is_empty());
    assert!(matches!(o.decl.proxies_out[0], Some(ProxyOut::Input(3))));
    o.reset_value(Link::Export(1), ValueIn::link(conn(a, 0)));
    assert_eq!(o.graph.graph.get_node(a).values_out[0], vec![Link::Export(1)]);
    assert!(o.decl.proxies_out[1].is_none());
}

fn bool_to_int() -> NodeKind {
    let mut k = NodeKind::expr(180, vec![bool_type()], int_type());
    k.kernel_id = 185;
    k
}

fn eq_int() -> NodeKind {
    let mut k = NodeKind::expr(14, vec![int_type(), int_type()], bool_type());
    k.kernel_id = 370;
    k
}

fn converted_comparison(constant: Option<i32>) -> (Optimizer, NodeRef, NodeRef, NodeRef) {
    let mut o = optimizer(0);
    let b = add(&mut o, NodeKind::expr(9, vec![], bool_type()));
    let cast = add(&mut o, bool_to_int());
    let eq = add(&mut o, eq_int());
    let reader = add(&mut o, NodeKind::procedure(2, vec![bool_type()]));
    o.graph.graph.connect_value(Connection(b, 0), Connection(cast, 0));
    o.graph.graph.connect_value(Connection(cast, 0), Connection(eq, 1));
    if let Some(c) = constant {
        o.graph.graph.set_default(Connection(eq, 0), AnyValue::Int(ValueInt(c)));
    }
    o.graph.graph.connect_value(Connection(eq, 0), Connection(reader, 0));
    (o, b, eq, reader)
}

#[test]
fn converted_bool_equal_to_zero_becomes_a_negation() {
    let (mut o, b, eq, reader) = converted_comparison(None);
    assert_eq!(o.eliminate_bool_eq_int(eq), None);
    assert_eq!(o.graph.graph.get_nodes().len(), 5);
    let link = o.graph.graph.get_node(reader).values_in[0].link.unwrap();
    let not = link.connection().unwrap().node();
    assert_eq!(o.graph.graph.get_node(not).kind.kernel_id, 229);
    assert_eq!(o.graph.graph.get_node(not).values_in[0].link, Some(conn(b, 0)));
    assert!(o.graph.graph.get_node(eq).values_out[0].is_empty());
}

#[test]
fn converted_bool_equal_to_one_is_the_bool() {
    let (mut o, b, eq, reader) = converted_comparison(Some(1));
    assert_eq!(o.eliminate_bool_eq_int(eq), None);
    assert_eq!(o.graph.graph.get_nodes().len(), 4);
    assert_eq!(o.graph.graph.get_node(reader).values_in[0].link, Some(conn(b, 0)));
}

#[test]
fn converted_bool_equal_to_other_is_false() {
    let (mut o, _b, eq, reader) = converted_comparison(Some(5));
    assert_eq!(o.eliminate_bool_eq_int(eq), None);
    // setting a value keeps the input's link
    let input = &o.graph.graph.get_node(reader).values_in[0];
    assert_eq!(input.link, Some(conn(eq, 0)));
    assert!(matches!(input.default, Some(AnyValue::Bool(ValueBool(false)))));
}

#[test]
fn comparison_of_two_links_stays() {
    let (mut o, b, eq, _reader) = converted_comparison(None);
    let other = add(&mut o, NodeKind::expr(9, vec![], int_type()));
    o.graph.graph.connect_value(Connection(other, 0), Connection(eq, 0));
    assert_eq!(o.eliminate_bool_eq_int(eq), Some(()));
    assert_eq!(o.graph.graph.get_node(b).values_out[0].len(), 1);
}

#[test]
fn prune_interface_drops_unlinked_pins() {
    let mut o = Optimizer {
        graph: CompositeNodeGraph::new(NodeGraph::new(NodeGraphKind::ServerEntity, String::from("f"))),
        decl: FnDecl { control: false, proxies_in: vec![10, 11, 12], proxies_out: vec![None, None] },
    };
    o.graph.pins.in_value = vec![String::from("a"), String::from("b"), String::from("c")];
    o.graph.pins.out_value = vec![String::from("x"), String::from("y")];
    let calc = add(&mut o, NodeKind::expr(5, vec![int_type(), int_type()], int_type()));
    o.graph.graph.export_value_in(Connection(calc, 0), 0);
    o.graph.graph.export_value_in(Connection(calc, 1), 2);
    o.graph.graph.export_value_out(Connection(calc, 0), 1);
    o.prune_interface();
    let n = o.graph.graph.get_node(calc);
    assert_eq!(n.values_in[0].link, Some(Link::Export(0)));
    assert_eq!(n.values_in[1].link, Some(Link::Export(1)));
    assert_eq!(n.values_out[0], vec![Link::Export(0)]);
    assert_eq!(o.graph.pins.in_value, vec![String::from("a"), String::from("c")]);
    assert_eq!(o.graph.pins.out_value, vec![String::from("y")]);
    assert_eq!(o.decl.proxies_in, vec![10, 12]);
    assert_eq!(o.decl.proxies_out.len(), 2);
}

#[test]
fn prune_interface_keeps_a_used_interface() {
    let mut o = optimizer(0);
    o.graph.pins.in_value = vec![String::from("a")];
    let calc = add(&mut o, NodeKind::expr(5, vec![int_type()], int_type()));
    o.graph.graph.export_value_in(Connection(calc, 0), 0);
    o.prune_interface();
    assert_eq!(o.graph.graph.get_node(calc).values_in[0].link, Some(Link::Export(0)));
    assert_eq!(o.graph.pins.in_value, vec![String::from("a")]);
    assert_eq!(o.decl.proxies_in, vec![0]);
}
