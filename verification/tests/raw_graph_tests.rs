use rust2genshin::ids::{AssetKind, Side};
use rust2genshin::message::{Payload, PinKind, PinSignature, Schema};
use rust2genshin::raw_graph::{
    Block, GraphVariable, Link, NodeGraphClass, NodeRef, NodeType, RawLink, RawNode, RawNodeGraph, RawPin,
};
use rust2genshin::value::{AnyValue, ValueInt, ValueStruct};

#[test]
fn plain_links_and_blocks() {
    let l = Link::new(NodeRef(3), 1);
    assert_eq!(l.node(), NodeRef(3));
    assert_eq!(l.pin(), 1);
    let b = Block::singleton(NodeRef(2), 0);
    assert_eq!(b.begin, NodeRef(2));
    assert_eq!(b.end, Link(NodeRef(2), 0));
}

#[test]
fn node_types() {
    let t = NodeType::simple(42);
    assert_eq!(t.runtime_id(), 42);
    assert_eq!(t.shell.kind, AssetKind::SysCallStub);
    assert!(!t.is_composite());
    let v = NodeType::variant(10, 11);
    assert_eq!(v.shell.runtime_id, 10);
    assert_eq!(v.kernel.runtime_id, 11);
    assert_eq!(v.runtime_id(), 10);
}

#[test]
fn raw_pin_encoding() {
    let mut pin = RawPin::new(PinKind::InValue, 2);
    pin.value = Some((AnyValue::Int(ValueInt(8)), true));
    pin.links.push(RawLink { node: 5, ty: PinKind::OutValue, index: 0 });
    pin.uid = Some(3);
    let d = pin.encode(Side::Server);
    assert_eq!(d.shell_sig, Some(PinSignature { kind: PinKind::InValue, index: 2 }));
    assert_eq!(d.type_id, Some(3));
    assert_eq!(d.connection.len(), 1);
    assert_eq!(d.connection[0].target_node_index, 5);
    assert_eq!(d.persistent_pin_uid, Some(3));
    let empty = RawPin::new(PinKind::OutControl, 0).encode(Side::Server);
    assert!(empty.value.is_none() && empty.type_id.is_none());
}

#[test]
fn graph_variables() {
    let v = GraphVariable::new(String::from("s"), AnyValue::Struct(ValueStruct { struct_id: 12, fields: vec![] }));
    assert!(v.is_set && !v.is_public);
    let d = v.encode(Side::Server);
    assert_eq!(d.var_name, "s");
    assert_eq!(d.base_type, 25);
    assert_eq!(d.schema_ref_id, Some(12));
    assert_eq!((d.container_key_type, d.container_value_type), (0, 0));
    let _ = Schema::StructRef;
}

#[test]
fn raw_graph_numbers_nodes_by_index_and_keeps_positions() {
    let mut pin = RawPin::new(PinKind::OutControl, 0);
    pin.links.push(RawLink { node: 3, ty: PinKind::InControl, index: 0 });
    let node = RawNode { ty: NodeType::variant(200, 201), pos: (1.5f32.to_bits(), 0), pins: vec![pin] };
    let g = RawNodeGraph {
        class: NodeGraphClass::Entity,
        name: "g".to_string(),
        nodes: vec![(4, node)],
        blackboard: vec![],
        references: vec![],
        port_mapping: vec![],
        graph_kind: AssetKind::CompositeGraph,
    };
    let data = g.encode(9).pop().unwrap();
    assert_eq!(data.id.unwrap().guid, 9);
    let Payload::GraphData(graph) = data.payload else {
        panic!("not graph data");
    };
    assert_eq!(graph.id.runtime_id, 9);
    assert_eq!(graph.id.kind, AssetKind::CompositeGraph);
    assert_eq!(graph.node.len(), 1);
    let n = &graph.node[0];
    assert_eq!(n.index, 5);
    assert_eq!(n.shell_ref.unwrap().runtime_id, 200);
    assert_eq!(n.kernel_ref.unwrap().runtime_id, 201);
    assert_eq!(f32::from_bits(n.x_pos), 1.5);
    assert_eq!(n.pins.len(), 1);
    assert_eq!(n.pins[0].connection[0].target_node_index, 3);
    assert_eq!(n.pins[0].shell_sig, Some(PinSignature { kind: PinKind::OutControl, index: 0 }));
}
