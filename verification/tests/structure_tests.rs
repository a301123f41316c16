use rust2genshin::bundle::{AssetBundle, AssetRef};
use rust2genshin::ids::{AssetKind, Category, GameMode};
use rust2genshin::message::{
    AssetType, FieldSubtype, FieldVal, ImplCategory, ImplTemplate, Payload, PinKind, PinSignature,
    TemplateRoot, TemplateSub,
};
use rust2genshin::structure::{
    node_assemble_struct, node_destruct_struct, node_modify_struct, StructField, StructureDefinition,
    StructureNodeDecl, StructureRef,
};
use rust2genshin::value::{AnyValue, ValueDict, ValueEntity, ValueInt, ValueString, ValueStruct};

fn player() -> StructureDefinition {
    StructureDefinition {
        name: String::from("Player"),
        version: 2,
        fields: vec![
            StructField { name: String::from("hp"), value: AnyValue::Int(ValueInt(5)) },
            StructField { name: String::from("tag"), value: AnyValue::Str(ValueString(String::from("a"))) },
            StructField { name: String::from("who"), value: AnyValue::Entity(ValueEntity) },
        ],
    }
}

fn registered() -> (AssetBundle, AssetRef<StructureRef>) {
    let mut bundle = AssetBundle::new(GameMode::Overlimit);
    let r = player().apply(&mut bundle);
    (bundle, r)
}

#[test]
fn structure_gets_its_identifier_and_three_declarations() {
    let (bundle, r) = registered();
    assert_eq!(r.root.category, Category::Default);
    assert_eq!(r.root.kind, AssetKind::Structure);
    assert_eq!(r.root.guid, 0x40400001);
    assert_eq!(r.data.fields.len(), 3);
    assert_eq!(r.data.decls.len(), 3);
    assert_eq!(r.data.decls[0].0, StructureNodeDecl::AssembleServer);
    assert_eq!(r.data.decls[1].0, StructureNodeDecl::DestructServer);
    assert_eq!(r.data.decls[2].0, StructureNodeDecl::Modify);
    assert_eq!(r.data.decls[0].1.root.guid, 0x60000001);
    assert_eq!(r.data.decls[1].1.root.guid, 0x60000002);
    assert_eq!(r.data.decls[2].1.root.guid, 0x60000003);
    assert_eq!(bundle.assets.len(), 4);
    for i in 0..3 {
        assert_eq!(bundle.assets[i].asset_type, AssetType::CompositeNodeDecl);
        assert_eq!(bundle.assets[i].references, vec![r.root]);
    }
}

#[test]
fn assemble_declaration_takes_the_fields_and_gives_the_structure() {
    let (bundle, r) = registered();
    assert_eq!(bundle.assets[0].name, "Assemble Struct Server");
    match &bundle.assets[0].payload {
        Payload::InterfaceData(ni) => {
            assert_eq!(ni.implementation.unwrap().category, ImplCategory::StructAssembly);
            assert_eq!(ni.implementation.unwrap().template, Some(ImplTemplate::AssembleStruct(0x40400001)));
            assert_eq!(ni.template_root, TemplateRoot::Struct);
            assert_eq!(ni.template_sub, TemplateSub::StructSub);
            assert!(ni.inflows.is_empty() && ni.outflows.is_empty());
            assert_eq!(ni.inputs.len(), 3);
            assert_eq!(ni.inputs[0].name, "hp");
            assert_eq!(ni.inputs[2].name, "who");
            assert_eq!(ni.outputs.len(), 1);
            assert_eq!(ni.outputs[0].name, "Player");
            assert_eq!(ni.outputs[0].meta_sig_type, Some(PinSignature { kind: PinKind::StructRef, index: 0 }));
            assert_eq!(ni.outputs[0].persistent_pin_uid, 4);
        }
        other => panic!("{other:?}"),
    }
    let kind = &r.data.decls[0].1.data;
    assert_eq!(kind.values_in_types.len(), 3);
    assert_eq!(kind.values_out_types.len(), 1);
    match &kind.values_out_types[0] {
        AnyValue::Struct(s) => {
            assert_eq!(s.struct_id, 0x40400001);
            assert_eq!(s.fields.len(), 3);
        }
        other => panic!("{other:?}"),
    }
}

#[test]
fn destruct_declaration_takes_the_structure_and_gives_the_fields() {
    let (bundle, r) = registered();
    assert_eq!(bundle.assets[1].name, "Destruct Struct Server");
    match &bundle.assets[1].payload {
        Payload::InterfaceData(ni) => {
            assert_eq!(ni.implementation.unwrap().category, ImplCategory::StructSplit);
            assert_eq!(ni.implementation.unwrap().template, Some(ImplTemplate::SplitStruct(0x40400001)));
            assert_eq!(ni.inputs.len(), 1);
            assert_eq!(ni.inputs[0].meta_sig_type, Some(PinSignature { kind: PinKind::StructRef, index: 0 }));
            assert_eq!(ni.outputs.len(), 3);
            assert_eq!(ni.outputs[1].name, "tag");
            assert_eq!(ni.outputs[1].meta_sig_type, None);
        }
        other => panic!("{other:?}"),
    }
    assert_eq!(r.data.decls[1].1.data.values_out_types.len(), 3);
}

#[test]
fn modify_declaration_has_a_setter_and_a_flag_per_field() {
    let (bundle, _r) = registered();
    assert_eq!(bundle.assets[2].name, "Modify Struct");
    match &bundle.assets[2].payload {
        Payload::InterfaceData(ni) => {
            assert_eq!(ni.implementation.unwrap().category, ImplCategory::StructModify);
            assert_eq!(ni.inflows.len(), 1);
            assert_eq!(ni.outflows.len(), 1);
            assert_eq!(ni.inputs.len(), 8);
            assert_eq!(ni.inputs[0].name, "Player");
            assert_eq!(ni.inputs[1].name, "Struct Key Select");
            assert!(ni.inputs[1].type_info.is_none());
            assert_eq!(ni.inputs[1].meta_sig_type, Some(PinSignature { kind: PinKind::StructKeySelect, index: 0 }));
            assert_eq!(ni.inputs[2].name, ".hp");
            assert_eq!(ni.inputs[2].meta_sig_type, Some(PinSignature { kind: PinKind::StructKeySet, index: 0 }));
            assert_eq!(ni.inputs[3].name, "modify(hp)");
            assert_eq!(ni.inputs[3].meta_sig_type, Some(PinSignature { kind: PinKind::StructKeyMod, index: 0 }));
            assert_eq!(ni.inputs[7].name, "modify(who)");
            assert!(ni.outputs.is_empty());
        }
        other => panic!("{other:?}"),
    }
}

#[test]
fn structure_asset_lists_its_fields() {
    let (bundle, r) = registered();
    let asset = &bundle.assets[3];
    assert_eq!(asset.id, Some(r.root));
    assert_eq!(asset.asset_type, AssetType::Structure);
    assert_eq!(asset.name, "");
    assert_eq!(asset.references.len(), 3);
    assert_eq!(asset.references[2].guid, 0x60000003);
    match &asset.payload {
        Payload::StructData(sd) => {
            assert_eq!(sd.struct_version, 2);
            assert_eq!(sd.item_count, 3);
            assert_eq!(sd.unknown1, 1);
            let g = sd.generic_fields.as_ref().unwrap();
            let c = sd.concrete_fields.as_ref().unwrap();
            assert_eq!(g.id, 0x40400001);
            assert_eq!(g.index, 2);
            assert_eq!(g.struct_name, "Player");
            assert_eq!(g.class_base, 1);
            assert_eq!(g.var.len(), 3);
            assert_eq!(c.var.len(), 3);
            assert_eq!(g.var[0].name, "hp");
            assert_eq!(g.var[0].var_index, 1);
            assert_eq!(g.var[0].var_type, 3);
            let plain = FieldSubtype { is_set: false, struct_id: 0, key: None, value: None, value_id: None };
            assert_eq!(g.var[0].kind.unwrap().sub, Some(plain));
            match &g.var[0].def.as_ref().unwrap().val {
                Some(FieldVal::IntVal(i)) => assert_eq!(i.value, 5),
                other => panic!("{other:?}"),
            }
            match &g.var[1].def.as_ref().unwrap().val {
                Some(FieldVal::StrVal(s)) => assert_eq!(s.value, "a"),
                other => panic!("{other:?}"),
            }
            assert_eq!(g.var[2].var_index, 3);
            assert!(g.var[2].def.is_none());
        }
        other => panic!("{other:?}"),
    }
}

#[test]
fn dictionary_and_structure_fields_carry_a_subtype() {
    let mut bundle = AssetBundle::new(GameMode::Overlimit);
    let def = StructureDefinition {
        name: String::from("Inv"),
        version: 1,
        fields: vec![
            StructField {
                name: String::from("items"),
                value: AnyValue::Dict(Box::new(ValueDict::new(
                    AnyValue::Str(ValueString(String::new())),
                    AnyValue::Int(ValueInt(0)),
                ))),
            },
            StructField {
                name: String::from("inner"),
                value: AnyValue::Struct(ValueStruct { struct_id: 77, fields: vec![] }),
            },
        ],
    };
    def.apply(&mut bundle);
    match &bundle.assets[3].payload {
        Payload::StructData(sd) => {
            let g = sd.generic_fields.as_ref().unwrap();
            let d = g.var[0].kind.unwrap().sub.unwrap();
            assert_eq!((d.is_set, d.struct_id, d.key, d.value, d.value_id), (true, 0x41000001, Some(6), Some(3), None));
            match &g.var[0].def.as_ref().unwrap().val {
                Some(FieldVal::Dict { key_type, value_type, value_type_id }) => {
                    assert_eq!((*key_type, *value_type, *value_type_id), (6, 3, None));
                }
                other => panic!("{other:?}"),
            }
            let s = g.var[1].kind.unwrap().sub.unwrap();
            assert_eq!((s.is_set, s.struct_id), (true, 77));
            match &g.var[1].def.as_ref().unwrap().val {
                Some(FieldVal::Structure { struct_id, id }) => {
                    assert_eq!(*struct_id, 77);
                    assert_eq!(id.unwrap().id, 0x40000001);
                    assert_eq!(id.unwrap().kind, 28);
                }
                other => panic!("{other:?}"),
            }
        }
        other => panic!("{other:?}"),
    }
}

#[test]
fn struct_nodes_come_from_the_registered_declarations() {
    let (_bundle, r) = registered();
    let a = node_assemble_struct(&r.data);
    let d = node_destruct_struct(&r.data);
    let m = node_modify_struct(&r.data);
    assert_eq!(a.kernel_id, 0x60000001);
    assert_eq!(d.kernel_id, 0x60000002);
    assert_eq!(m.kernel_id, 0x60000003);
    assert_eq!(a.values_in_types.len(), 3);
    assert_eq!(d.values_out_types.len(), 3);
    assert_eq!((m.controls_in_num, m.controls_out_num), (1, 1));
    assert_eq!(m.values_in_types.len(), 8);
    assert!(m.values_in_types[1].is_none());
}

#[test]
fn struct_value_takes_the_registered_fields() {
    let (_bundle, r) = registered();
    let v = ValueStruct::new(&r);
    assert_eq!(v.get_struct_id(), 0x40400001);
    assert_eq!(v.fields.len(), 3);
    match &v.fields[0] {
        AnyValue::Int(i) => assert_eq!(i.0, 5),
        other => panic!("{other:?}"),
    }
}
