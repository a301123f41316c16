use rust2genshin::bundle::AssetBundle;
use rust2genshin::composite::CompositeNodeGraph;
use rust2genshin::decl::{node_decl, DeclPin, NodeDecl, PinTable};
use rust2genshin::encode::{encode_node, MainNodeGraph, NodeGraphStatic};
use rust2genshin::graph::{Connection, Implementation, Link, Node, NodeGraph, NodeGraphKind, NodeKind, NodeRef};
use rust2genshin::ids::{AssetKind, Category, GameMode, Identifier, Side, Source};
use rust2genshin::message::{
    AssetType, ImplCategory, InterfaceImplementation, Payload, PinKind, PinSignature, Storage, TemplateRoot,
    TemplateSub, TypeDetail, WidgetType,
};
use rust2genshin::value::{AnyValue, ValueBool, ValueInt, ValueStruct};

fn int_type() -> AnyValue {
    AnyValue::Int(ValueInt(0))
}

fn graph() -> NodeGraph {
    NodeGraph::new(NodeGraphKind::ServerEntity, String::from("g"))
}

#[test]
fn node_instance_lists_linked_pins() {
    let mut g = graph();
    let a = g.insert(Node::new(NodeKind::func(10, vec![], int_type())));
    let b = g.insert(Node::new(NodeKind::func(20, vec![int_type(), int_type()], int_type())));
    g.connect_control(Connection(a, 0), Connection(b, 0));
    g.connect_value(Connection(a, 0), Connection(b, 1));
    g.set_default(Connection(b, 0), AnyValue::Int(ValueInt(4)));

    let ia = encode_node(a, g.get_node(a), Side::Server);
    assert_eq!(ia.index, 1);
    assert_eq!(ia.shell_ref.unwrap().runtime_id, 10);
    assert_eq!(ia.kernel_ref.unwrap().runtime_id, 10);
    // one control pin; the value output has no selector
    assert_eq!(ia.pins.len(), 1);
    let p = &ia.pins[0];
    assert_eq!(p.shell_sig, Some(PinSignature { kind: PinKind::OutControl, index: 0 }));
    assert_eq!(p.connection.len(), 1);
    assert_eq!(p.connection[0].target_node_index, 2);
    assert_eq!(p.connection[0].target_pin_shell, Some(PinSignature { kind: PinKind::InControl, index: 0 }));

    let ib = encode_node(b, g.get_node(b), Side::Server);
    assert_eq!(ib.index, 2);
    // no control out links; two set inputs
    assert_eq!(ib.pins.len(), 2);
    let p0 = &ib.pins[0];
    assert_eq!(p0.shell_sig, Some(PinSignature { kind: PinKind::InValue, index: 0 }));
    assert_eq!(p0.kernel_sig, Some(PinSignature { kind: PinKind::InValue, index: 0 }));
    assert_eq!(p0.type_id, Some(3));
    match &p0.value {
        Some(tv) => assert!(matches!(tv.storage, Some(Storage::ValInt(ref x)) if x.value == 4)),
        None => panic!("missing value"),
    }
    assert!(p0.connection.is_empty());
    let p1 = &ib.pins[1];
    assert_eq!(p1.shell_sig, Some(PinSignature { kind: PinKind::InValue, index: 1 }));
    assert!(p1.value.is_none());
    assert_eq!(p1.connection.len(), 1);
    assert_eq!(p1.connection[0].target_node_index, 1);
    assert_eq!(p1.connection[0].target_pin_shell, Some(PinSignature { kind: PinKind::OutValue, index: 0 }));
}

#[test]
fn kernel_index_counts_typed_inputs() {
    let mut g = graph();
    let mut kind = NodeKind::expr(5, vec![int_type(), int_type()], int_type());
    kind.values_in_types[0] = None;
    let a = g.insert(Node::new(kind));
    g.set_default(Connection(a, 0), AnyValue::Int(ValueInt(1)));
    g.set_default(Connection(a, 1), AnyValue::Int(ValueInt(2)));
    let inst = encode_node(a, g.get_node(a), Side::Server);
    // the untyped input has no pin; the typed one is kernel pin 0
    assert_eq!(inst.pins.len(), 1);
    assert_eq!(inst.pins[0].shell_sig, Some(PinSignature { kind: PinKind::InValue, index: 1 }));
    assert_eq!(inst.pins[0].kernel_sig, Some(PinSignature { kind: PinKind::InValue, index: 0 }));
}

#[test]
fn selected_output_is_polymorphic() {
    let mut g = graph();
    let mut kind = NodeKind::expr(5, vec![], AnyValue::Struct(ValueStruct { struct_id: 9, fields: vec![] }));
    kind.selectors_out[0] = Some(2);
    kind.imps_out[0] = Implementation::Struct;
    let a = g.insert(Node::new(kind));
    let inst = encode_node(a, g.get_node(a), Side::Server);
    assert_eq!(inst.pins.len(), 1);
    let tv = inst.pins[0].value.as_ref().unwrap();
    assert_eq!(tv.widget, WidgetType::TypeSelector);
    assert!(tv.is_set);
    match &tv.storage {
        Some(Storage::ValPoly(p)) => {
            assert_eq!(p.chosen_type_index, 2);
            let meta = p.extra_meta.unwrap();
            assert_eq!(meta.container_style, WidgetType::StructBlock);
            assert_eq!(meta.schema_binding.unwrap().schema_id, 9);
            let inner = p.actual_value.as_ref().unwrap();
            assert!(!inner.is_set);
            match inner.type_def.unwrap().type_detail {
                Some(TypeDetail::ServerSide(st)) => assert_eq!(st.implementation, 1),
                other => panic!("{other:?}"),
            }
        }
        other => panic!("{other:?}"),
    }
}

#[test]
fn graph_asset_in_key_order() {
    let mut g = graph();
    let a = g.insert(Node::new(NodeKind::procedure(1, vec![])));
    let b = g.insert(Node::new(NodeKind::procedure(2, vec![])));
    g.connect_control(Connection(b, 0), Connection(a, 0));
    let id = Identifier { source: Source::Unspecified, category: Category::ServerNodeGraph, kind: AssetKind::Basic, guid: 0x40000001, runtime_id: 0 };
    let asset = g.apply(id);
    assert_eq!(asset.id, Some(id));
    assert_eq!(asset.name, "g");
    assert_eq!(asset.asset_type, AssetType::EntityNodeGraph);
    match asset.payload {
        Payload::GraphData(data) => {
            assert_eq!(data.id.runtime_id, 0x40000001);
            assert_eq!(data.id.kind, AssetKind::CustomGraph);
            assert_eq!(data.display_name, "g");
            assert_eq!(data.node.len(), 2);
            assert_eq!(data.node[0].index, 1);
            assert_eq!(data.node[1].index, 2);
            assert!(data.blackboard.is_empty());
        }
        other => panic!("{other:?}"),
    }
}

#[test]
fn main_graph_gets_an_identifier_and_blackboard() {
    let mut bundle = AssetBundle::new(GameMode::Overlimit);
    let mut main = MainNodeGraph::new(graph());
    main.statics.push(NodeGraphStatic::new(String::from("count"), AnyValue::Int(ValueInt(3))));
    let id = main.apply(&mut bundle);
    assert_eq!(id.guid, 0x40000001);
    assert_eq!(id.category, Category::ServerNodeGraph);
    assert_eq!(bundle.assets.len(), 1);
    match &bundle.assets[0].payload {
        Payload::GraphData(data) => {
            assert_eq!(data.blackboard.len(), 1);
            assert_eq!(data.blackboard[0].var_name, "count");
            assert_eq!(data.blackboard[0].base_type, 3);
        }
        other => panic!("{other:?}"),
    }
    let next = bundle.alloc_id(Category::ServerNodeGraph, AssetKind::Basic);
    assert_eq!(next.guid, 0x40000002);
}

#[test]
fn bundle_counters_and_primary_assets() {
    let mut bundle = AssetBundle::new(GameMode::Classic);
    let a = bundle.alloc_id(Category::Default, AssetKind::Structure);
    let b = bundle.alloc_id(Category::Default, AssetKind::Structure);
    let c = bundle.alloc_id(Category::NodeDecl, AssetKind::Basic);
    assert_eq!(a.guid, 0x40400001);
    assert_eq!(b.guid, 0x40400002);
    assert_eq!(c.guid, 0x60000001);
    assert_eq!(a.source, Source::Unspecified);
    assert_eq!(a.runtime_id, 0);

    let g1 = graph();
    let g2 = graph();
    bundle.push(g1.apply(a));
    bundle.push(g2.apply(b));
    bundle.set_primary(b);
    bundle.set_primary(b);
    assert_eq!(bundle.primary, vec![b]);
    assert_eq!(bundle.get(b).unwrap().id, Some(b));
    assert!(bundle.get(c).is_none());
    let data = bundle.encode();
    assert_eq!(data.assets.len(), 1);
    assert_eq!(data.assets[0].id, Some(b));
    assert_eq!(data.dependencies.len(), 1);
    assert_eq!(data.dependencies[0].id, Some(a));
    assert_eq!(data.export_info, "by mz");
    assert_eq!(data.engine_version, "7.0.0");
    assert_eq!(data.mode, GameMode::Classic);
}

#[test]
fn declarations_number_their_pins() {
    let mut bundle = AssetBundle::new(GameMode::Overlimit);
    let graph_id = bundle.alloc_id(Category::ServerNodeGraph, AssetKind::Basic);
    let decl = NodeDecl {
        name: String::from("f"),
        description: String::from("d"),
        pins: PinTable {
            in_control: vec![DeclPin { name: String::new(), kind: None, meta: None }],
            out_control: vec![],
            in_value: vec![DeclPin { name: String::from("x"), kind: Some(AnyValue::Int(ValueInt(0))), meta: None }],
            out_value: vec![DeclPin { name: String::from("y"), kind: Some(AnyValue::Bool(ValueBool(false))), meta: None }],
        },
        implementation: InterfaceImplementation { category: ImplCategory::Composite, template: None },
        template_root: TemplateRoot::UserComposite,
        template_sub: TemplateSub::NoSub,
        references: vec![graph_id],
    };
    let r = decl.apply(&mut bundle);
    assert_eq!(r.root.guid, 0x60000001);
    assert_eq!(r.root.category, Category::NodeDecl);
    assert_eq!(r.data.controls_in_num, 1);
    assert_eq!(r.data.controls_out_num, 0);
    assert_eq!(r.data.values_in_types.len(), 1);
    assert_eq!(r.data.values_out_types.len(), 1);
    assert_eq!(r.data.references[0].guid, 0x60000001);
    assert_eq!(r.data.references[0].category, Category::NodeDecl);
    let asset = bundle.assets.last().unwrap();
    assert_eq!(asset.asset_type, AssetType::CompositeNodeDecl);
    match &asset.payload {
        Payload::InterfaceData(ni) => {
            let sig = ni.id.unwrap();
            assert_eq!(sig.shell_ref.unwrap().kind, AssetKind::GeneratedStub);
            assert_eq!(sig.shell_ref.unwrap().runtime_id, 0x60000001);
            let graph_ref = sig.graph_ref.unwrap();
            assert_eq!(graph_ref.kind, AssetKind::CompositeGraph);
            assert_eq!(graph_ref.runtime_id, 0x40000001);
            assert_eq!(ni.inflows[0].persistent_pin_uid, 1);
            assert_eq!(ni.inputs[0].persistent_pin_uid, 2);
            assert_eq!(ni.outputs[0].persistent_pin_uid, 3);
            assert_eq!(ni.inputs[0].sig, Some(PinSignature { kind: PinKind::InValue, index: 0 }));
            let ti = ni.inputs[0].type_info.unwrap();
            assert_eq!(ti.var_type_shell, Some(3));
            assert_eq!(ti.ui_class, Some(WidgetType::NumberInput));
            assert!(ni.inflows[0].type_info.is_none());
            assert_eq!(ni.inputs[0].visibility_mask, 1);
        }
        other => panic!("{other:?}"),
    }
}

#[test]
fn declaration_without_graph_refers_to_zero() {
    let mut bundle = AssetBundle::new(GameMode::Overlimit);
    let decl = NodeDecl {
        name: String::from("s"),
        description: String::new(),
        pins: PinTable { in_control: vec![], out_control: vec![], in_value: vec![], out_value: vec![] },
        implementation: InterfaceImplementation { category: ImplCategory::StructAssembly, template: None },
        template_root: TemplateRoot::Struct,
        template_sub: TemplateSub::StructSub,
        references: vec![],
    };
    decl.apply(&mut bundle);
    match &bundle.assets[0].payload {
        Payload::InterfaceData(ni) => {
            let r = ni.id.unwrap().graph_ref.unwrap();
            assert_eq!((r.guid, r.runtime_id), (0, 0));
            assert_eq!(r.category, Category::Default);
        }
        other => panic!("{other:?}"),
    }
}

#[test]
fn node_decl_kind() {
    let k = node_decl(99, 1, 2, vec![None], vec![]);
    assert_eq!(k.kernel_id, 99);
    assert_eq!(k.controls_in_num, 1);
    assert_eq!(k.controls_out_num, 2);
    assert_eq!(k.references.len(), 1);
    assert_eq!(k.references[0].guid, 99);
}

#[test]
fn composite_graph_maps_its_interface() {
    let mut bundle = AssetBundle::new(GameMode::Overlimit);
    let mut g = graph();
    let a = g.insert(Node::new(NodeKind::func(1, vec![int_type()], int_type())));
    g.export_control_in(Connection(a, 0), 0);
    g.export_control_out(Connection(a, 0), 0);
    g.export_value_in(Connection(a, 0), 0);
    g.export_value_out(Connection(a, 0), 0);
    let mut c = CompositeNodeGraph::new(g);
    c.pins.in_control.push(String::new());
    c.pins.out_control.push(String::new());
    c.pins.in_value.push(String::from("x"));
    c.pins.out_value.push(String::from("y"));
    let r = c.apply(&mut bundle);
    assert_eq!(r.data.id.guid, 0x40000001);
    assert_eq!(r.root.guid, 0x60000001);
    assert_eq!(bundle.assets.len(), 2);
    match &bundle.assets[0].payload {
        Payload::GraphData(data) => {
            assert_eq!(data.id.kind, AssetKind::CompositeGraph);
            assert_eq!(data.port_mapping.len(), 4);
            let m = data.port_mapping[2];
            assert_eq!(m.external_port, Some(PinSignature { kind: PinKind::InValue, index: 0 }));
            assert_eq!(m.internal_target_node_handle, 1);
            assert_eq!(m.internal_port_shell, Some(PinSignature { kind: PinKind::InValue, index: 0 }));
        }
        other => panic!("{other:?}"),
    }
    match &bundle.assets[1].payload {
        Payload::InterfaceData(ni) => {
            assert_eq!(ni.inputs.len(), 1);
            assert_eq!(ni.inputs[0].type_info.unwrap().var_type_shell, Some(3));
            assert_eq!(ni.outputs[0].type_info.unwrap().var_type_shell, Some(3));
            assert_eq!(ni.id.unwrap().graph_ref.unwrap().runtime_id, 0x40000001);
        }
        other => panic!("{other:?}"),
    }
    assert_eq!(r.data.node.values_in_types.len(), 1);
    assert_eq!(r.data.node.controls_in_num, 1);
    let _ = Link::Export(0);
    let _ = NodeRef(0);
}
