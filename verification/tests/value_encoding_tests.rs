use rust2genshin::ids::Side;
use rust2genshin::message::{ClientTypeId, ServerTypeId, Storage};
use rust2genshin::value::{
    AnyValue, ValueDict, ValueFactionList, ValueFloat, ValueGuid, ValueInt, ValueIntList, ValueLocalVarRef,
    ValueString, ValueStringList, ValueVec3,
};

fn float_bits(x: f32) -> u32 {
    x.to_bits()
}

#[test]
fn scalar_types_encode_storage() {
    assert_eq!(ValueFloat(float_bits(1.5)).get_server_type(), ServerTypeId::SFloat);
    assert_eq!(ValueFloat(float_bits(1.5)).get_client_type(), ClientTypeId::CFloat);
    let f = AnyValue::Float(ValueFloat(float_bits(1.5))).encode_typed(true, Side::Server);
    assert!(matches!(f.storage, Some(Storage::ValFloat(_))));

    let v = AnyValue::Vec3(ValueVec3 { x: float_bits(1.0), y: float_bits(2.0), z: float_bits(3.0) })
        .encode_typed(true, Side::Server);
    assert!(matches!(v.storage, Some(Storage::ValVector(_))));

    let g = AnyValue::Guid(ValueGuid(42)).encode_typed(true, Side::Server);
    assert!(matches!(g.storage, Some(Storage::ValId(_))));
}

#[test]
fn list_types_encode() {
    assert_eq!(ValueIntList(vec![]).get_server_type(), ServerTypeId::SIntList);
    let l = AnyValue::IntList(ValueIntList(vec![1, 2, 3])).encode_typed(true, Side::Server);
    let Some(Storage::ValList(list)) = l.storage else {
        panic!("not a list");
    };
    assert_eq!(list.element.len(), 3);
    assert!(matches!(list.element[0].storage, Some(Storage::ValInt(_))));

    let sl = AnyValue::StringList(ValueStringList(vec!["a".to_string()])).encode_typed(true, Side::Server);
    let Some(Storage::ValList(sl_list)) = sl.storage else {
        panic!("not a list");
    };
    assert!(matches!(sl_list.element[0].storage, Some(Storage::ValString(_))));
}

#[test]
fn dict_encodes_pairs() {
    assert_eq!(
        ValueDict::new(AnyValue::Str(ValueString(String::new())), AnyValue::Str(ValueString(String::new()))).get_server_type(),
        ServerTypeId::SDict
    );
    let d = ValueDict::infer(vec![(AnyValue::Str(ValueString("k".to_string())), AnyValue::Int(ValueInt(1)))]).unwrap();
    let d = AnyValue::Dict(Box::new(d)).encode_typed(true, Side::Server);
    let Some(Storage::ValMap(map)) = d.storage else {
        panic!("not a map");
    };
    assert_eq!(map.pairs.len(), 1);
    assert!(matches!(map.pairs[0].storage, Some(Storage::ValPair(_))));
}

#[test]
fn server_only_types_use_client_unknown() {
    assert_eq!(ValueFactionList(vec![]).get_client_type(), ClientTypeId::ClientUnknown);
    assert_eq!(
        ValueDict::new(AnyValue::Str(ValueString(String::new())), AnyValue::Str(ValueString(String::new()))).get_client_type(),
        ClientTypeId::ClientUnknown
    );
    assert_eq!(ValueLocalVarRef.get_client_type(), ClientTypeId::ClientUnknown);
}
