use rust2genshin::ids::{AssetKind, Side};
use rust2genshin::message::{Payload, ServerTypeId};
use rust2genshin::raw_graph::{GraphVariable, NodeGraphClass, RawNodeGraph};
use rust2genshin::value::{AnyValue, ValueInt, ValueString, ValueStruct};

#[test]
fn graph_variable_encodes() {
    let v = GraphVariable::new(String::from("hp"), AnyValue::Int(ValueInt(100)));
    let proto = v.encode(Side::Server);
    assert_eq!(proto.var_name, "hp");
    assert_eq!(proto.base_type, ServerTypeId::SInt.code());
    assert!(!proto.is_public);
    assert_eq!(proto.container_key_type, 0);
    assert_eq!(proto.container_value_type, 0);
    assert!(proto.schema_ref_id.is_none());
    let sv = proto.storage_value.unwrap();
    assert!(sv.is_set);
    assert!(sv.type_def.is_some());
    assert!(sv.storage.is_some());
}

#[test]
fn graph_variable_struct_schema_ref() {
    let mut v = GraphVariable::new(String::from("player"), AnyValue::Int(ValueInt(0)));
    v.value = AnyValue::Struct(ValueStruct { struct_id: 0x4040_0001, fields: vec![] });
    let proto = v.encode(Side::Server);
    assert_eq!(proto.schema_ref_id, Some(0x4040_0001));

    let mut unset = GraphVariable::new(String::from("x"), AnyValue::Int(ValueInt(0)));
    unset.is_set = false;
    let sv = unset.encode(Side::Server).storage_value.unwrap();
    assert!(!sv.is_set);
    assert!(sv.storage.is_none());
}

#[test]
fn node_graph_blackboard_encodes() {
    let g = RawNodeGraph {
        class: NodeGraphClass::Entity,
        name: "g".to_string(),
        nodes: vec![],
        blackboard: vec![
            GraphVariable::new(String::from("hp"), AnyValue::Int(ValueInt(100))),
            GraphVariable::new(String::from("name"), AnyValue::Str(ValueString("alice".to_string()))),
        ],
        references: vec![],
        port_mapping: vec![],
        graph_kind: AssetKind::CustomGraph,
    };
    let data = g.encode(7).pop().unwrap();
    let Payload::GraphData(graph) = data.payload else {
        panic!("payload is not graph data");
    };
    assert_eq!(graph.blackboard.len(), 2);
    assert_eq!(graph.blackboard[0].var_name, "hp");
    assert_eq!(graph.blackboard[0].base_type, ServerTypeId::SInt.code());
    assert_eq!(graph.blackboard[1].var_name, "name");
    assert_eq!(graph.blackboard[1].base_type, ServerTypeId::SString.code());
}
