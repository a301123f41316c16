use rust2genshin::composite_node::{CompositeNode, CompositePin};
use rust2genshin::ids::{AssetKind, Category, Identifier, Source};
use rust2genshin::message::{AssetType, ImplCategory, Payload, PinKind, ServerTypeId, TemplateRoot, TypeInfoDetail};

#[test]
fn composite_node_encodes() {
    let graph_ref = Identifier {
        source: Source::UserDefined,
        category: Category::ServerNodeGraph,
        kind: AssetKind::CompositeGraph,
        guid: 200,
        runtime_id: 200,
    };
    let mut c = CompositeNode::new_user_composite(String::from("MyComponent"), graph_ref);
    c.pins = vec![
        CompositePin::flow(String::from("start"), PinKind::InControl, 0),
        CompositePin::flow(String::from("done"), PinKind::OutControl, 0),
        CompositePin::param(String::from("value"), PinKind::InValue, 0, ServerTypeId::SInt),
        CompositePin::param(String::from("result"), PinKind::OutValue, 0, ServerTypeId::SString),
    ];
    let data = c.encode(200);
    assert_eq!(data.asset_type, AssetType::CompositeNodeDecl);
    assert_eq!(data.id.as_ref().unwrap().kind, AssetKind::CompositeGraph);
    let Payload::InterfaceData(iface) = data.payload else {
        panic!("payload is not interface data");
    };
    assert_eq!(iface.inflows.len(), 1);
    assert_eq!(iface.outflows.len(), 1);
    assert_eq!(iface.inputs.len(), 1);
    assert_eq!(iface.outputs.len(), 1);
    assert_eq!(iface.inputs[0].name, "value");
    assert_eq!(iface.inputs[0].type_info.as_ref().unwrap().var_type_shell, Some(ServerTypeId::SInt.code()));
    let sig = iface.id.unwrap();
    assert!(sig.graph_ref.is_some());
    assert_eq!(iface.template_root, TemplateRoot::UserComposite);
    assert_eq!(iface.implementation.unwrap().category, ImplCategory::Composite);
}

#[test]
fn special_pins_of_a_composite_node_are_kept_apart() {
    let mut c = CompositeNode::new_user_composite(
        String::from("S"),
        Identifier { source: Source::UserDefined, category: Category::ServerNodeGraph, kind: AssetKind::CompositeGraph, guid: 1, runtime_id: 1 },
    );
    c.pins = vec![
        CompositePin::struct_param(String::from("s"), PinKind::StructRef, 0, 77),
        CompositePin::param(String::from("a"), PinKind::InValue, 0, ServerTypeId::SInt),
        CompositePin::param(String::from("b"), PinKind::InValue, 1, ServerTypeId::SBoolean),
    ];
    c.implementation = None;
    let data = c.encode(5);
    assert_eq!(data.id.unwrap().guid, 5);
    let Payload::InterfaceData(iface) = data.payload else {
        panic!("payload is not interface data");
    };
    assert_eq!(iface.meta_pins.len(), 1);
    let s = &iface.meta_pins[0];
    assert_eq!(s.persistent_pin_uid, 0);
    assert_eq!(s.visibility_mask, 0);
    assert_eq!(s.type_info.unwrap().detail, Some(TypeInfoDetail::StructId(77)));
    assert_eq!(iface.inputs.len(), 2);
    assert_eq!(iface.inputs[1].name, "b");
    assert_eq!(iface.inputs[1].persistent_pin_uid, 1);
    assert!(iface.implementation.is_none());
    let stub = iface.id.unwrap().shell_ref.unwrap();
    assert_eq!((stub.category, stub.kind, stub.runtime_id), (Category::NodeDecl, AssetKind::GeneratedStub, 5));
}
