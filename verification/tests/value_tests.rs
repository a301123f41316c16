use rust2genshin::ids::Side;
use rust2genshin::message::{
    Backend, ClientTypeId, Schema, ServerTypeId, Storage, TypeDetail, TypeInfoDetail, WidgetType,
};
use rust2genshin::value::{
    list_storage, AnyValue, ValueBool, ValueDict, ValueEnum, ValueError, ValueGuid, ValueInt,
    ValueIntList, ValueIrAdt, ValueString, ValueStruct,
};

#[test]
fn scalar_encodings() {
    assert_eq!(ValueBool(true).encode().value, 1);
    assert_eq!(ValueBool(false).encode().value, 0);
    assert_eq!(ValueInt(-7).encode().value, -7);
    assert_eq!(ValueString(String::from("hi")).encode().value, "hi");
    assert_eq!(ValueGuid(1234).encode().value, 1234);
    let e = ValueEnum::new(21, 3);
    assert_eq!((e.id, e.index), (21, 3));
}

#[test]
fn type_codes_of_values() {
    let v = AnyValue::Int(ValueInt(1));
    assert_eq!(v.get_server_type(), ServerTypeId::SInt);
    assert_eq!(v.get_server_type().code(), 3);
    assert_eq!(v.get_client_type().code(), 3);
    assert_eq!(v.get_type_id(Side::Server), 3);
    let b = AnyValue::Bool(ValueBool(true));
    assert_eq!(b.get_type_id(Side::Server), 4);
    assert_eq!(b.get_type_id(Side::Client), 5);
    let s = AnyValue::Str(ValueString(String::new()));
    assert_eq!(s.get_type_id(Side::Server), 6);
    assert_eq!(s.get_type_id(Side::Client), 9);
    assert_eq!(ClientTypeId::ClientUnknown.code(), 0);
}

#[test]
fn widgets_follow_server_types() {
    assert_eq!(AnyValue::Int(ValueInt(0)).get_widget_type(), WidgetType::NumberInput);
    assert_eq!(AnyValue::Bool(ValueBool(false)).get_widget_type(), WidgetType::EnumPicker);
    assert_eq!(AnyValue::Str(ValueString(String::new())).get_widget_type(), WidgetType::TextInput);
    assert_eq!(AnyValue::IntList(ValueIntList(vec![])).get_widget_type(), WidgetType::ListGroup);
    assert_eq!(AnyValue::IrAdt(ValueIrAdt(String::from("T"))).get_widget_type(), WidgetType::Unknown);
}

#[test]
fn int_list_encodes_each_element() {
    let v = AnyValue::IntList(ValueIntList(vec![1, 2, 3]));
    let tv = v.encode_typed(true, Side::Server);
    assert!(tv.is_set);
    assert_eq!(tv.widget, WidgetType::ListGroup);
    match tv.storage {
        Some(Storage::ValList(l)) => {
            assert_eq!(l.element.len(), 3);
            for (i, e) in l.element.iter().enumerate() {
                match &e.storage {
                    Some(Storage::ValInt(x)) => assert_eq!(x.value, i as i32 + 1),
                    other => panic!("{other:?}"),
                }
            }
        }
        other => panic!("{other:?}"),
    }
}

#[test]
fn unset_values_have_no_storage() {
    let tv = AnyValue::Int(ValueInt(5)).encode_typed(false, Side::Client);
    assert!(!tv.is_set);
    assert!(tv.storage.is_none());
    let def = tv.type_def.unwrap();
    assert_eq!(def.backend, Backend::Client);
    assert!(matches!(def.type_detail, Some(TypeDetail::ClientSide(c)) if c.type_tag == 3));
}

#[test]
fn struct_values_carry_their_schema() {
    let s = AnyValue::Struct(ValueStruct { struct_id: 77, fields: vec![AnyValue::Int(ValueInt(1))] });
    assert!(matches!(s.encode_schema(), Some(Schema::StructRef(r)) if r.schema_id == 77));
    assert_eq!(s.encode_type_detail(), Some(TypeInfoDetail::StructId(77)));
    assert_eq!(s.get_server_type(), ServerTypeId::SStruct);
}

#[test]
fn dictionary_type_is_inferred_from_first_entry() {
    let d = ValueDict::infer(vec![(AnyValue::Int(ValueInt(1)), AnyValue::Bool(ValueBool(true)))]).unwrap();
    assert!(matches!(d.key_type, AnyValue::Int(_)));
    assert!(matches!(d.value_type, AnyValue::Bool(_)));
    assert_eq!(d.data.len(), 1);
    let e = ValueDict::infer(vec![]);
    assert!(matches!(e, Err(ValueError::CannotInferType)));
    let empty = ValueDict::new(AnyValue::Int(ValueInt(0)), AnyValue::Int(ValueInt(0)));
    assert!(empty.data.is_empty());
}

#[test]
fn dictionary_schema_binds_key_and_value_types() {
    let d = AnyValue::Dict(Box::new(ValueDict::new(AnyValue::Int(ValueInt(0)), AnyValue::Str(ValueString(String::new())))));
    match d.encode_schema() {
        Some(Schema::MapBinding(m)) => {
            assert_eq!(m.key_type, 3);
            assert_eq!(m.value_type, 6);
            assert_eq!(m.value_struct_id, None);
        }
        other => panic!("{other:?}"),
    }
    assert_eq!(d.get_server_type().code(), 27);
}

#[test]
fn instance_checks_follow_kinds() {
    let e1 = AnyValue::Enum(ValueEnum::new(1, 0));
    let e2 = AnyValue::Enum(ValueEnum::new(1, 5));
    let e3 = AnyValue::Enum(ValueEnum::new(2, 0));
    assert!(e1.is_instance(&e2));
    assert!(!e1.is_instance(&e3));
    let adt = AnyValue::IrAdt(ValueIrAdt(String::from("P")));
    assert!(adt.is_instance(&AnyValue::Int(ValueInt(0))));
    assert!(!AnyValue::Int(ValueInt(0)).is_instance(&AnyValue::Bool(ValueBool(true))));
}

#[test]
fn duplicate_keeps_content() {
    let v = AnyValue::Str(ValueString(String::from("abc")));
    match v.duplicate() {
        AnyValue::Str(s) => assert_eq!(s.0, "abc"),
        other => panic!("{other:?}"),
    }
}

#[test]
fn list_storage_keeps_elements() {
    let tv = AnyValue::Int(ValueInt(2)).encode_typed(true, Side::Server);
    let s = list_storage(vec![tv]);
    assert_eq!(s.element.len(), 1);
}
