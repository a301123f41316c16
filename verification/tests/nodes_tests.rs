use rust2genshin::graph::NodeId;
use rust2genshin::ids::{AssetKind, Side};
use rust2genshin::message::{ServerTypeId, Storage};
use rust2genshin::nodes::{
    node_abs, node_add, node_assemble_list, node_clamp, node_convert_type, node_divide, node_equal,
    node_greater_equal, node_greater_than, node_if, node_less_equal, node_less_than, node_local, node_max, node_min,
    node_multiply, node_not, node_power, node_set_local, node_sign, node_subtract, node_switch,
};
use rust2genshin::value::{
    AnyValue, ValueBool, ValueEntity, ValueFloat, ValueFloatList, ValueGuid, ValueInt, ValueString, ValueVec3,
    ValueVectorList,
};

fn int_type() -> AnyValue {
    AnyValue::Int(ValueInt(0))
}

fn float_type() -> AnyValue {
    AnyValue::Float(ValueFloat(0))
}

#[test]
fn numeric_kernels_follow_the_type() {
    let cases: Vec<(fn(AnyValue) -> rust2genshin::graph::NodeKind, i64, i64)> = vec![
        (node_add, 200, 201),
        (node_subtract, 202, 203),
        (node_multiply, 204, 205),
        (node_divide, 206, 207),
        (node_power, 209, 210),
        (node_max, 211, 212),
        (node_min, 213, 214),
        (node_abs, 216, 217),
        (node_sign, 218, 219),
        (node_clamp, 222, 223),
        (node_less_than, 230, 235),
        (node_less_equal, 231, 236),
        (node_greater_than, 232, 237),
        (node_greater_equal, 233, 238),
    ];
    for (f, int_kernel, float_kernel) in cases {
        let k = f(int_type());
        assert_eq!(k.kernel_id, int_kernel);
        assert_eq!(k.id, NodeId::Low { kind: AssetKind::SysCallStub, id: int_kernel });
        assert!(k.selectors_in.iter().all(|s| *s == Some(0)));
        let k = f(float_type());
        assert_eq!(k.kernel_id, float_kernel);
        assert_eq!(k.id, NodeId::Low { kind: AssetKind::SysCallStub, id: int_kernel });
        assert!(k.selectors_in.iter().all(|s| *s == Some(1)));
    }
}

#[test]
fn arithmetic_shapes() {
    let add = node_add(float_type());
    assert_eq!(add.values_in_types.len(), 2);
    assert_eq!(add.selectors_out, vec![Some(1)]);
    assert!(matches!(add.values_out_types[0], AnyValue::Float(_)));
    let clamp = node_clamp(int_type());
    assert_eq!(clamp.values_in_types.len(), 3);
    let less = node_less_than(int_type());
    assert!(matches!(less.values_out_types[0], AnyValue::Bool(_)));
    assert_eq!(less.selectors_out, vec![None]);
    let abs = node_abs(int_type());
    assert_eq!(abs.values_in_types.len(), 1);
}

#[test]
fn equality_variants() {
    let e = node_equal(AnyValue::Str(ValueString(String::new())));
    assert_eq!((e.kernel_id, e.selectors_in[0]), (14, Some(0)));
    let e = node_equal(AnyValue::Guid(ValueGuid(0)));
    assert_eq!((e.kernel_id, e.selectors_in[0]), (15, Some(1)));
    let e = node_equal(AnyValue::Entity(ValueEntity));
    assert_eq!((e.kernel_id, e.selectors_in[0]), (16, Some(2)));
    let e = node_equal(AnyValue::Vec3(ValueVec3 { x: 0, y: 0, z: 0 }));
    assert_eq!((e.kernel_id, e.selectors_in[0]), (17, Some(3)));
    let e = node_equal(int_type());
    assert_eq!((e.kernel_id, e.selectors_in[1]), (370, Some(5)));
    let e = node_equal(AnyValue::Bool(ValueBool(false)));
    assert_eq!((e.kernel_id, e.selectors_in[1]), (786, Some(9)));
    assert_eq!(e.id, NodeId::Low { kind: AssetKind::SysCallStub, id: 14 });
}

#[test]
fn list_assembly_and_conversion() {
    let l = node_assemble_list(float_type());
    assert_eq!((l.kernel_id, l.selectors_in[0], l.selectors_out[0]), (173, Some(4), Some(4)));
    let c = node_convert_type(int_type(), AnyValue::Str(ValueString(String::new())));
    assert_eq!((c.kernel_id, c.selectors_in[0], c.selectors_out[0]), (182, Some(0), Some(2)));
    let c = node_convert_type(AnyValue::Vec3(ValueVec3 { x: 1, y: 2, z: 3 }), AnyValue::Str(ValueString(String::new())));
    assert_eq!((c.kernel_id, c.selectors_in[0], c.selectors_out[0]), (189, Some(5), Some(2)));
    let c = node_convert_type(float_type(), int_type());
    assert_eq!((c.kernel_id, c.selectors_in[0], c.selectors_out[0]), (187, Some(4), Some(3)));
}

#[test]
fn switch_and_locals() {
    let s = node_switch(int_type(), 3);
    assert_eq!(s.kernel_id, 3);
    assert_eq!(s.controls_out_num, 4);
    assert!(matches!(s.values_in_types[1], Some(AnyValue::IntList(_))));
    let s = node_switch(AnyValue::Str(ValueString(String::new())), 0);
    assert_eq!(s.kernel_id, 4);
    assert_eq!(s.selectors_in, vec![Some(1), Some(1)]);
    let l = node_local(int_type());
    assert_eq!(l.kernel_id, 20);
    assert_eq!(l.selectors_out, vec![None, Some(1)]);
    assert!(matches!(l.values_out_types[0], AnyValue::LocalVarRef(_)));
    let l = node_local(AnyValue::VectorList(ValueVectorList(vec![])));
    assert_eq!(l.kernel_id, 2666);
    let s = node_set_local(AnyValue::Bool(ValueBool(true)));
    assert_eq!(s.kernel_id, 19);
    assert_eq!(s.selectors_in, vec![None, Some(0)]);
    let s = node_set_local(AnyValue::FloatList(ValueFloatList(vec![])));
    assert_eq!(s.kernel_id, 2683);
}

#[test]
fn floats_are_carried_by_their_bits() {
    let bits = 1.5f32.to_bits();
    let v = AnyValue::Float(ValueFloat(bits));
    assert_eq!(v.get_server_type(), ServerTypeId::SFloat);
    assert_eq!(v.get_type_id(Side::Client), 7);
    match v.encode_typed(true, Side::Server).storage {
        Some(Storage::ValFloat(f)) => assert_eq!(f32::from_bits(f.value), 1.5),
        other => panic!("{other:?}"),
    }
    let vl = AnyValue::VectorList(ValueVectorList(vec![(1, 2, 3)]));
    assert_eq!(vl.get_server_type().code(), 15);
    match vl.encode_typed(true, Side::Server).storage {
        Some(Storage::ValList(l)) => {
            assert_eq!(l.element.len(), 1);
            assert!(matches!(l.element[0].storage, Some(Storage::ValVector(v)) if (v.x, v.y, v.z) == (1, 2, 3)));
        }
        other => panic!("{other:?}"),
    }
}

#[test]
fn branch_and_negation_nodes() {
    let i = node_if();
    assert_eq!(i.id, NodeId::Low { kind: AssetKind::SysCallStub, id: 2 });
    assert_eq!((i.controls_in_num, i.controls_out_num), (1, 2));
    assert!(matches!(i.values_in_types[0], Some(AnyValue::Bool(_))));
    let n = node_not();
    assert_eq!((n.id, n.kernel_id), (NodeId::Low { kind: AssetKind::SysCallStub, id: 229 }, 229));
    assert_eq!((n.controls_in_num, n.controls_out_num), (0, 0));
    assert!(matches!(n.values_out_types[0], AnyValue::Bool(_)));
}
