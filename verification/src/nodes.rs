//! Kinds of the game's polymorphic nodes: one outer shape whose kernel
//! and type selectors follow the type of the values it works on.

use vstd::prelude::*;

use crate::graph::{Implementation, NodeId, NodeKind};
use crate::ids::AssetKind;
use crate::message::ServerTypeId;
use crate::value::{
    same_value, server_type_of, AnyValue, ValueBool, ValueFloat, ValueInt, ValueIntList,
    ValueLocalVarRef, ValueStringList,
};

verus! {

/// A copy of `ty`; an integer or number type is copied exactly.
fn copy_type(ty: &AnyValue) -> (r: AnyValue)
    ensures
        same_value(r, *ty),
        numeric(*ty) ==> r == *ty,
{
    let r = ty.duplicate();
    proof {
        if numeric(*ty) {
            assert(same_value(r, *ty));
            assert(r == *ty);
        }
    }
    r
}

/// `n` copies of `ty`.
fn copies(ty: &AnyValue, n: usize) -> (r: Vec<AnyValue>)
    ensures
        r@.len() == n,
        forall|i: int| 0 <= i < n ==> same_value(#[trigger] r@[i], *ty),
        numeric(*ty) ==> r@ == Seq::new(n as nat, |_i: int| *ty),
{
    let mut r: Vec<AnyValue> = Vec::new();
    let mut i: usize = 0;
    while i < n
        invariant
            i <= n,
            r@.len() == i,
            forall|j: int| 0 <= j < i ==> same_value(#[trigger] r@[j], *ty),
            numeric(*ty) ==> forall|j: int| 0 <= j < i ==> #[trigger] r@[j] == *ty,
        decreases n - i,
    {
        r.push(copy_type(ty));
        i = i + 1;
    }
    proof {
        if numeric(*ty) {
            assert(r@ =~= Seq::new(n as nat, |_i: int| *ty));
        }
    }
    r
}

/// `n` selectors, each choosing `s`.
fn choosing(n: usize, s: i32) -> (r: Vec<Option<i32>>)
    ensures
        r@ == Seq::new(n as nat, |_i: int| Some(s)),
{
    let mut r: Vec<Option<i32>> = Vec::new();
    let mut i: usize = 0;
    while i < n
        invariant
            i <= n,
            r@.len() == i,
            forall|j: int| 0 <= j < i ==> #[trigger] r@[j] == Some(s),
        decreases n - i,
    {
        r.push(Some(s));
        i = i + 1;
    }
    assert(r@ =~= Seq::new(n as nat, |_i: int| Some(s)));
    r
}

/// Sets selector `i` to `s`.
fn select(selectors: &mut Vec<Option<i32>>, i: usize, s: i32)
    requires
        i < old(selectors)@.len(),
    ensures
        final(selectors)@ == old(selectors)@.update(i as int, Some(s)),
{
    selectors.set(i, Some(s));
}

/// An integer or a single-precision number.
pub open spec fn numeric(ty: AnyValue) -> bool {
    ty is Int || ty is Float
}

/// The index of the type among the variants of a numeric node.
pub open spec fn numeric_choice(ty: AnyValue) -> i32 {
    if ty is Int {
        0
    } else {
        1
    }
}

/// The boolean type.
pub open spec fn bool_type() -> AnyValue {
    AnyValue::Bool(ValueBool(false))
}

/// `r` is the kind of the numeric expression `shell` on `arity` inputs of
/// type `ty`: its kernel is `int_kernel` for integers and `float_kernel`
/// otherwise; its output has type `ty` (and a selector) if `same_out`, and
/// is a boolean otherwise.
pub open spec fn numeric_kind_ok(
    r: NodeKind,
    shell: i64,
    int_kernel: i64,
    float_kernel: i64,
    arity: nat,
    ty: AnyValue,
    same_out: bool,
) -> bool {
    &&& r.id == (NodeId::Low { kind: AssetKind::SysCallStub, id: shell })
    &&& r.kernel_id == (if ty is Int {
        int_kernel
    } else {
        float_kernel
    })
    &&& r.controls_in_num == 0
    &&& r.controls_out_num == 0
    &&& r.values_in_types@ == Seq::new(arity, |_i: int| Some(ty))
    &&& r.values_out_types@ == seq![
        if same_out {
            ty
        } else {
            bool_type()
        },
    ]
    &&& r.selectors_in@ == Seq::new(arity, |_i: int| Some(numeric_choice(ty)))
    &&& r.selectors_out@ == seq![
        if same_out {
            Some(numeric_choice(ty))
        } else {
            None
        },
    ]
    &&& r.imps_out@ == seq![Implementation::Primitive]
    &&& r.references@.len() == 0
}

fn numeric_node(
    shell: i64,
    int_kernel: i64,
    float_kernel: i64,
    arity: usize,
    ty: &AnyValue,
    same_out: bool,
) -> (r: NodeKind)
    requires
        numeric(*ty),
    ensures
        numeric_kind_ok(r, shell, int_kernel, float_kernel, arity as nat, *ty, same_out),
{
    let inputs = copies(ty, arity);
    let out = if same_out {
        copy_type(ty)
    } else {
        AnyValue::Bool(ValueBool(false))
    };
    let mut result = NodeKind::expr(shell, inputs, out);
    let (kernel, selected) = match ty {
        AnyValue::Int(_) => (int_kernel, 0),
        _ => (float_kernel, 1),
    };
    result.kernel_id = kernel;
    result.selectors_in = choosing(arity, selected);
    if same_out {
        select(&mut result.selectors_out, 0, selected);
    }
    assert(result.values_in_types@ =~= Seq::new(arity as nat, |_i: int| Some(*ty)));
    assert(result.imps_out@ =~= seq![Implementation::Primitive]);
    assert(result.selectors_out@ =~= seq![
        if same_out {
            Some(numeric_choice(*ty))
        } else {
            None
        },
    ]);
    result
}

/// Addition: integer kernel 200, number kernel 201.
pub fn node_add(ty: AnyValue) -> (r: NodeKind)
    requires
        numeric(ty),
    ensures
        numeric_kind_ok(r, 200, 200, 201, 2, ty, true),
{
    numeric_node(200, 200, 201, 2, &ty, true)
}

/// Subtraction: kernels 202 and 203.
pub fn node_subtract(ty: AnyValue) -> (r: NodeKind)
    requires
        numeric(ty),
    ensures
        numeric_kind_ok(r, 202, 202, 203, 2, ty, true),
{
    numeric_node(202, 202, 203, 2, &ty, true)
}

/// Multiplication: kernels 204 and 205.
pub fn node_multiply(ty: AnyValue) -> (r: NodeKind)
    requires
        numeric(ty),
    ensures
        numeric_kind_ok(r, 204, 204, 205, 2, ty, true),
{
    numeric_node(204, 204, 205, 2, &ty, true)
}

/// Division: kernels 206 and 207.
pub fn node_divide(ty: AnyValue) -> (r: NodeKind)
    requires
        numeric(ty),
    ensures
        numeric_kind_ok(r, 206, 206, 207, 2, ty, true),
{
    numeric_node(206, 206, 207, 2, &ty, true)
}

/// Power: kernels 209 and 210.
pub fn node_power(ty: AnyValue) -> (r: NodeKind)
    requires
        numeric(ty),
    ensures
        numeric_kind_ok(r, 209, 209, 210, 2, ty, true),
{
    numeric_node(209, 209, 210, 2, &ty, true)
}

/// Maximum: kernels 211 and 212.
pub fn node_max(ty: AnyValue) -> (r: NodeKind)
    requires
        numeric(ty),
    ensures
        numeric_kind_ok(r, 211, 211, 212, 2, ty, true),
{
    numeric_node(211, 211, 212, 2, &ty, true)
}

/// Minimum: kernels 213 and 214.
pub fn node_min(ty: AnyValue) -> (r: NodeKind)
    requires
        numeric(ty),
    ensures
        numeric_kind_ok(r, 213, 213, 214, 2, ty, true),
{
    numeric_node(213, 213, 214, 2, &ty, true)
}

/// Absolute value: kernels 216 and 217.
pub fn node_abs(ty: AnyValue) -> (r: NodeKind)
    requires
        numeric(ty),
    ensures
        numeric_kind_ok(r, 216, 216, 217, 1, ty, true),
{
    numeric_node(216, 216, 217, 1, &ty, true)
}

/// Sign: kernels 218 and 219.
pub fn node_sign(ty: AnyValue) -> (r: NodeKind)
    requires
        numeric(ty),
    ensures
        numeric_kind_ok(r, 218, 218, 219, 1, ty, true),
{
    numeric_node(218, 218, 219, 1, &ty, true)
}

/// Clamping of a value between two bounds: kernels 222 and 223.
pub fn node_clamp(ty: AnyValue) -> (r: NodeKind)
    requires
        numeric(ty),
    ensures
        numeric_kind_ok(r, 222, 222, 223, 3, ty, true),
{
    numeric_node(222, 222, 223, 3, &ty, true)
}

/// Less than: kernels 230 and 235; the output is a boolean.
pub fn node_less_than(ty: AnyValue) -> (r: NodeKind)
    requires
        numeric(ty),
    ensures
        numeric_kind_ok(r, 230, 230, 235, 2, ty, false),
{
    numeric_node(230, 230, 235, 2, &ty, false)
}

/// Less or equal: kernels 231 and 236.
pub fn node_less_equal(ty: AnyValue) -> (r: NodeKind)
    requires
        numeric(ty),
    ensures
        numeric_kind_ok(r, 231, 231, 236, 2, ty, false),
{
    numeric_node(231, 231, 236, 2, &ty, false)
}

/// Greater than: kernels 232 and 237.
pub fn node_greater_than(ty: AnyValue) -> (r: NodeKind)
    requires
        numeric(ty),
    ensures
        numeric_kind_ok(r, 232, 232, 237, 2, ty, false),
{
    numeric_node(232, 232, 237, 2, &ty, false)
}

/// Greater or equal: kernels 233 and 238.
pub fn node_greater_equal(ty: AnyValue) -> (r: NodeKind)
    requires
        numeric(ty),
    ensures
        numeric_kind_ok(r, 233, 233, 238, 2, ty, false),
{
    numeric_node(233, 233, 238, 2, &ty, false)
}

/// `types` are `n` inputs, each typed with a copy of `ty`.
pub open spec fn typed_copies(types: Seq<Option<AnyValue>>, ty: AnyValue, n: nat) -> bool {
    &&& types.len() == n
    &&& forall|i: int| 0 <= i < n ==> (#[trigger] types[i] matches Some(t) && same_value(t, ty))
}

/// The variant index of a table entry.
pub open spec fn variant_index(v: Option<(i32, i64)>) -> i32 {
    match v {
        Some((i, _)) => i,
        None => 0,
    }
}

/// The kernel of a table entry.
pub open spec fn variant_kernel(v: Option<(i32, i64)>) -> i64 {
    match v {
        Some((_, k)) => k,
        None => 0,
    }
}

/// The variant index and kernel of an equality node for values of type
/// `ty`, if it compares them.
pub open spec fn equal_variant(ty: AnyValue) -> Option<(i32, i64)> {
    match ty {
        AnyValue::Str(_) => Some((0, 14)),
        AnyValue::Guid(_) => Some((1, 15)),
        AnyValue::Entity(_) => Some((2, 16)),
        AnyValue::Vec3(_) => Some((3, 17)),
        AnyValue::Int(_) => Some((5, 370)),
        AnyValue::Float(_) => Some((6, 371)),
        AnyValue::Config(_) => Some((7, 581)),
        AnyValue::Prefab(_) => Some((8, 582)),
        AnyValue::Bool(_) => Some((9, 786)),
        _ => None,
    }
}

/// The conditional branch: a boolean condition in, control out to the
/// true branch and to the false branch.
pub fn node_if() -> (r: NodeKind)
    ensures
        r.id == (NodeId::Low { kind: AssetKind::SysCallStub, id: 2 }),
        r.kernel_id == 2,
        r.controls_in_num == 1,
        r.controls_out_num == 2,
        r.values_in_types@ == seq![Some(bool_type())],
        r.values_out_types@.len() == 0,
        r.references@.len() == 0,
{
    let mut inputs: Vec<AnyValue> = Vec::new();
    inputs.push(AnyValue::Bool(ValueBool(false)));
    let r = NodeKind::new(2, 1, 2, inputs, Vec::new());
    assert(r.values_in_types@ =~= seq![Some(bool_type())]);
    r
}

/// Boolean negation.
pub fn node_not() -> (r: NodeKind)
    ensures
        r.id == (NodeId::Low { kind: AssetKind::SysCallStub, id: 229 }),
        r.kernel_id == 229,
        r.controls_in_num == 0,
        r.controls_out_num == 0,
        r.values_in_types@ == seq![Some(bool_type())],
        r.values_out_types@ == seq![bool_type()],
        r.references@.len() == 0,
{
    let mut inputs: Vec<AnyValue> = Vec::new();
    inputs.push(AnyValue::Bool(ValueBool(false)));
    let r = NodeKind::expr(229, inputs, AnyValue::Bool(ValueBool(false)));
    assert(r.values_in_types@ =~= seq![Some(bool_type())]);
    r
}

/// Equality of two values of type `ty`; the output is a boolean. The
/// variant index follows the order of the variants, not the kernel.
pub fn node_equal(ty: AnyValue) -> (r: NodeKind)
    requires
        equal_variant(ty) is Some,
    ensures
        r.id == (NodeId::Low { kind: AssetKind::SysCallStub, id: 14 }),
        r.kernel_id == variant_kernel(equal_variant(ty)),
        r.controls_in_num == 0,
        r.controls_out_num == 0,
        typed_copies(r.values_in_types@, ty, 2),
        r.values_out_types@ == seq![bool_type()],
        r.selectors_in@ == seq![Some(variant_index(equal_variant(ty))), Some(variant_index(equal_variant(ty)))],
        r.selectors_out@ == seq![None::<i32>],
        r.imps_out@ == seq![Implementation::Primitive],
        r.references@.len() == 0,
{
    let inputs = copies(&ty, 2);
    let mut result = NodeKind::expr(14, inputs, AnyValue::Bool(ValueBool(false)));
    let (selected, kernel): (i32, i64) = match ty {
        AnyValue::Str(_) => (0, 14),
        AnyValue::Guid(_) => (1, 15),
        AnyValue::Entity(_) => (2, 16),
        AnyValue::Vec3(_) => (3, 17),
        AnyValue::Int(_) => (5, 370),
        AnyValue::Float(_) => (6, 371),
        AnyValue::Config(_) => (7, 581),
        AnyValue::Prefab(_) => (8, 582),
        AnyValue::Bool(_) => (9, 786),
        _ => {
            assert(false);
            (0, 0)
        },
    };
    result.kernel_id = kernel;
    result.selectors_in = choosing(2, selected);
    assert(result.selectors_in@ =~= seq![Some(selected), Some(selected)]);
    assert(result.selectors_out@ =~= seq![None::<i32>]);
    assert(result.imps_out@ =~= seq![Implementation::Primitive]);
    result
}

/// The variant index and kernel of a list-assembling node for elements of
/// server type `t`, if it assembles them.
pub open spec fn list_variant(t: ServerTypeId) -> Option<(i32, i64)> {
    match t {
        ServerTypeId::SInt => Some((0, 169)),
        ServerTypeId::SString => Some((1, 170)),
        ServerTypeId::SEntity => Some((2, 171)),
        ServerTypeId::SGuid => Some((3, 172)),
        ServerTypeId::SFloat => Some((4, 173)),
        ServerTypeId::SVector => Some((5, 174)),
        ServerTypeId::SBoolean => Some((6, 175)),
        ServerTypeId::SConfig => Some((7, 568)),
        ServerTypeId::SPrefab => Some((8, 569)),
        _ => None,
    }
}

/// Assembling a list of elements of type `ty`, declared with one element
/// input; more inputs are added as needed.
pub fn node_assemble_list(ty: AnyValue) -> (r: NodeKind)
    requires
        list_variant(server_type_of(ty)) is Some,
    ensures
        r.id == (NodeId::Low { kind: AssetKind::SysCallStub, id: 169 }),
        r.kernel_id == variant_kernel(list_variant(server_type_of(ty))),
        r.controls_in_num == 0,
        r.controls_out_num == 0,
        typed_copies(r.values_in_types@, ty, 1),
        r.values_out_types@.len() == 1,
        same_value(r.values_out_types@[0], ty),
        r.selectors_in@ == seq![Some(variant_index(list_variant(server_type_of(ty))))],
        r.selectors_out@ == seq![Some(variant_index(list_variant(server_type_of(ty))))],
        r.imps_out@ == seq![Implementation::Primitive],
        r.references@.len() == 0,
{
    let inputs = copies(&ty, 1);
    let out = copy_type(&ty);
    let mut result = NodeKind::expr(169, inputs, out);
    let (selected, kernel): (i32, i64) = match ty.get_server_type() {
        ServerTypeId::SInt => (0, 169),
        ServerTypeId::SString => (1, 170),
        ServerTypeId::SEntity => (2, 171),
        ServerTypeId::SGuid => (3, 172),
        ServerTypeId::SFloat => (4, 173),
        ServerTypeId::SVector => (5, 174),
        ServerTypeId::SBoolean => (6, 175),
        ServerTypeId::SConfig => (7, 568),
        ServerTypeId::SPrefab => (8, 569),
        _ => {
            assert(false);
            (0, 0)
        },
    };
    result.kernel_id = kernel;
    result.selectors_in = choosing(1, selected);
    result.selectors_out = choosing(1, selected);
    assert(result.selectors_in@ =~= seq![Some(selected)]);
    assert(result.selectors_out@ =~= seq![Some(selected)]);
    assert(result.imps_out@ =~= seq![Implementation::Primitive]);
    result
}

/// The kernel of a conversion from server type `from` to server type
/// `to`, if there is one.
pub open spec fn convert_kernel(from: ServerTypeId, to: ServerTypeId) -> Option<i64> {
    match (from, to) {
        (ServerTypeId::SInt, ServerTypeId::SBoolean) => Some(180),
        (ServerTypeId::SInt, ServerTypeId::SFloat) => Some(181),
        (ServerTypeId::SInt, ServerTypeId::SString) => Some(182),
        (ServerTypeId::SEntity, ServerTypeId::SString) => Some(183),
        (ServerTypeId::SGuid, ServerTypeId::SString) => Some(184),
        (ServerTypeId::SBoolean, ServerTypeId::SInt) => Some(185),
        (ServerTypeId::SBoolean, ServerTypeId::SString) => Some(186),
        (ServerTypeId::SFloat, ServerTypeId::SInt) => Some(187),
        (ServerTypeId::SFloat, ServerTypeId::SString) => Some(188),
        (ServerTypeId::SVector, ServerTypeId::SString) => Some(189),
        _ => None,
    }
}

/// The variant index of the input of a conversion.
pub open spec fn convert_from_index(from: ServerTypeId) -> i32 {
    match from {
        ServerTypeId::SInt => 0,
        ServerTypeId::SEntity => 1,
        ServerTypeId::SGuid => 2,
        ServerTypeId::SBoolean => 3,
        ServerTypeId::SFloat => 4,
        _ => 5,
    }
}

/// The variant index of the output of a conversion.
pub open spec fn convert_to_index(to: ServerTypeId) -> i32 {
    match to {
        ServerTypeId::SBoolean => 0,
        ServerTypeId::SFloat => 1,
        ServerTypeId::SString => 2,
        _ => 3,
    }
}

/// Conversion of a value of type `from_ty` into one of type `to_ty`.
pub fn node_convert_type(from_ty: AnyValue, to_ty: AnyValue) -> (r: NodeKind)
    requires
        convert_kernel(server_type_of(from_ty), server_type_of(to_ty)) is Some,
    ensures
        r.id == (NodeId::Low { kind: AssetKind::SysCallStub, id: 180 }),
        r.kernel_id == convert_kernel(server_type_of(from_ty), server_type_of(to_ty))->0,
        r.controls_in_num == 0,
        r.controls_out_num == 0,
        typed_copies(r.values_in_types@, from_ty, 1),
        r.values_out_types@.len() == 1,
        same_value(r.values_out_types@[0], to_ty),
        r.selectors_in@ == seq![Some(convert_from_index(server_type_of(from_ty)))],
        r.selectors_out@ == seq![Some(convert_to_index(server_type_of(to_ty)))],
        r.imps_out@ == seq![Implementation::Primitive],
        r.references@.len() == 0,
{
    let inputs = copies(&from_ty, 1);
    let out = copy_type(&to_ty);
    let mut result = NodeKind::expr(180, inputs, out);
    let from = from_ty.get_server_type();
    let to = to_ty.get_server_type();
    let kernel: i64 = match (from, to) {
        (ServerTypeId::SInt, ServerTypeId::SBoolean) => 180,
        (ServerTypeId::SInt, ServerTypeId::SFloat) => 181,
        (ServerTypeId::SInt, ServerTypeId::SString) => 182,
        (ServerTypeId::SEntity, ServerTypeId::SString) => 183,
        (ServerTypeId::SGuid, ServerTypeId::SString) => 184,
        (ServerTypeId::SBoolean, ServerTypeId::SInt) => 185,
        (ServerTypeId::SBoolean, ServerTypeId::SString) => 186,
        (ServerTypeId::SFloat, ServerTypeId::SInt) => 187,
        (ServerTypeId::SFloat, ServerTypeId::SString) => 188,
        (ServerTypeId::SVector, ServerTypeId::SString) => 189,
        _ => {
            assert(false);
            0
        },
    };
    result.kernel_id = kernel;
    let selected_in: i32 = match from {
        ServerTypeId::SInt => 0,
        ServerTypeId::SEntity => 1,
        ServerTypeId::SGuid => 2,
        ServerTypeId::SBoolean => 3,
        ServerTypeId::SFloat => 4,
        _ => 5,
    };
    let selected_out: i32 = match to {
        ServerTypeId::SBoolean => 0,
        ServerTypeId::SFloat => 1,
        ServerTypeId::SString => 2,
        _ => 3,
    };
    result.selectors_in = choosing(1, selected_in);
    result.selectors_out = choosing(1, selected_out);
    assert(result.selectors_in@ =~= seq![Some(selected_in)]);
    assert(result.selectors_out@ =~= seq![Some(selected_out)]);
    assert(result.imps_out@ =~= seq![Implementation::Primitive]);
    result
}

/// A switch on a key of type `ty` (an integer or a string) among the
/// cases of a list: one control input, a default branch and one branch per
/// case.
pub fn node_switch(ty: AnyValue, cases: usize) -> (r: NodeKind)
    requires
        ty is Int || ty is Str,
        cases < usize::MAX,
    ensures
        r.id == (NodeId::Low { kind: AssetKind::SysCallStub, id: 3 }),
        r.kernel_id == (if ty is Int {
            3i64
        } else {
            4i64
        }),
        r.controls_in_num == 1,
        r.controls_out_num == 1 + cases,
        r.values_in_types@.len() == 2,
        r.values_in_types@[0] matches Some(t) && same_value(t, ty),
        ty is Int ==> (r.values_in_types@[1] matches Some(AnyValue::IntList(l)) && l.0@.len() == 0),
        ty is Str ==> (r.values_in_types@[1] matches Some(AnyValue::StringList(l)) && l.0@.len()
            == 0),
        r.values_out_types@.len() == 0,
        r.selectors_in@ == seq![Some(numeric_choice(ty)), Some(numeric_choice(ty))],
        r.selectors_out@.len() == 0,
        r.references@.len() == 0,
{
    let mut inputs: Vec<AnyValue> = Vec::new();
    inputs.push(copy_type(&ty));
    let (kernel, selected, list) = match ty {
        AnyValue::Int(_) => (3i64, 0i32, AnyValue::IntList(ValueIntList(Vec::new()))),
        _ => (4i64, 1i32, AnyValue::StringList(ValueStringList(Vec::new()))),
    };
    inputs.push(list);
    let mut result = NodeKind::new(3, 1, 1 + cases, inputs, Vec::new());
    result.kernel_id = kernel;
    result.selectors_in = choosing(2, selected);
    assert(result.selectors_in@ =~= seq![Some(selected), Some(selected)]);
    result
}

/// The variant index of a local variable of server type `t`, if there are
/// local variables of that type.
pub open spec fn local_variant(t: ServerTypeId) -> Option<int> {
    match t {
        ServerTypeId::SBoolean => Some(0),
        ServerTypeId::SInt => Some(1),
        ServerTypeId::SString => Some(2),
        ServerTypeId::SEntity => Some(3),
        ServerTypeId::SGuid => Some(4),
        ServerTypeId::SFloat => Some(5),
        ServerTypeId::SVector => Some(6),
        ServerTypeId::SIntList => Some(7),
        ServerTypeId::SStringList => Some(8),
        ServerTypeId::SEntityList => Some(9),
        ServerTypeId::SGuidList => Some(10),
        ServerTypeId::SFloatList => Some(11),
        ServerTypeId::SVectorList => Some(12),
        ServerTypeId::SBooleanList => Some(13),
        ServerTypeId::SConfig => Some(14),
        ServerTypeId::SPrefab => Some(15),
        ServerTypeId::SConfigList => Some(16),
        ServerTypeId::SPrefabList => Some(17),
        ServerTypeId::SFaction => Some(18),
        ServerTypeId::SFactionList => Some(19),
        _ => None,
    }
}

/// The kernel of the node that reads a local variable of variant `i`.
pub open spec fn local_kernel(i: int) -> i64 {
    if i == 0 {
        18
    } else if i == 1 {
        20
    } else {
        (2654 + i) as i64
    }
}

/// The kernel of the node that writes a local variable of variant `i`.
pub open spec fn set_local_kernel(i: int) -> i64 {
    if i == 0 {
        19
    } else if i == 1 {
        21
    } else {
        (2672 + i) as i64
    }
}

fn local_index(t: ServerTypeId) -> (r: Option<i32>)
    ensures
        r matches Some(i) ==> local_variant(t) == Some(i as int),
        r is None ==> local_variant(t) is None,
{
    match t {
        ServerTypeId::SBoolean => Some(0),
        ServerTypeId::SInt => Some(1),
        ServerTypeId::SString => Some(2),
        ServerTypeId::SEntity => Some(3),
        ServerTypeId::SGuid => Some(4),
        ServerTypeId::SFloat => Some(5),
        ServerTypeId::SVector => Some(6),
        ServerTypeId::SIntList => Some(7),
        ServerTypeId::SStringList => Some(8),
        ServerTypeId::SEntityList => Some(9),
        ServerTypeId::SGuidList => Some(10),
        ServerTypeId::SFloatList => Some(11),
        ServerTypeId::SVectorList => Some(12),
        ServerTypeId::SBooleanList => Some(13),
        ServerTypeId::SConfig => Some(14),
        ServerTypeId::SPrefab => Some(15),
        ServerTypeId::SConfigList => Some(16),
        ServerTypeId::SPrefabList => Some(17),
        ServerTypeId::SFaction => Some(18),
        ServerTypeId::SFactionList => Some(19),
        _ => None,
    }
}

/// A local variable holding a value of type `ty`: its initial value in,
/// a reference to the variable and its value out.
pub fn node_local(ty: AnyValue) -> (r: NodeKind)
    requires
        local_variant(server_type_of(ty)) is Some,
    ensures
        r.id == (NodeId::Low { kind: AssetKind::SysCallStub, id: 18 }),
        r.kernel_id == local_kernel(local_variant(server_type_of(ty))->0),
        r.controls_in_num == 0,
        r.controls_out_num == 0,
        typed_copies(r.values_in_types@, ty, 1),
        r.values_out_types@.len() == 2,
        r.values_out_types@[0] == AnyValue::LocalVarRef(ValueLocalVarRef),
        same_value(r.values_out_types@[1], ty),
        r.selectors_in@ == seq![Some(local_variant(server_type_of(ty))->0 as i32)],
        r.selectors_out@ == seq![None, Some(local_variant(server_type_of(ty))->0 as i32)],
        r.references@.len() == 0,
{
    let inputs = copies(&ty, 1);
    let mut outputs: Vec<AnyValue> = Vec::new();
    outputs.push(AnyValue::LocalVarRef(ValueLocalVarRef));
    outputs.push(copy_type(&ty));
    let mut result = NodeKind::new(18, 0, 0, inputs, outputs);
    let selected = match local_index(ty.get_server_type()) {
        Some(i) => i,
        None => {
            assert(false);
            0
        },
    };
    result.kernel_id = if selected == 0 {
        18
    } else if selected == 1 {
        20
    } else {
        2654 + selected as i64
    };
    result.selectors_in = choosing(1, selected);
    select(&mut result.selectors_out, 1, selected);
    assert(result.selectors_in@ =~= seq![Some(selected)]);
    assert(result.selectors_out@ =~= seq![None, Some(selected)]);
    result
}

/// Writing a value of type `ty` into a local variable: one control pin in
/// and out, the reference to the variable and the value in.
pub fn node_set_local(ty: AnyValue) -> (r: NodeKind)
    requires
        local_variant(server_type_of(ty)) is Some,
    ensures
        r.id == (NodeId::Low { kind: AssetKind::SysCallStub, id: 19 }),
        r.kernel_id == set_local_kernel(local_variant(server_type_of(ty))->0),
        r.controls_in_num == 1,
        r.controls_out_num == 1,
        r.values_in_types@.len() == 2,
        r.values_in_types@[0] == Some(AnyValue::LocalVarRef(ValueLocalVarRef)),
        r.values_in_types@[1] matches Some(t) && same_value(t, ty),
        r.values_out_types@.len() == 0,
        r.selectors_in@ == seq![None, Some(local_variant(server_type_of(ty))->0 as i32)],
        r.selectors_out@.len() == 0,
        r.references@.len() == 0,
{
    let mut inputs: Vec<AnyValue> = Vec::new();
    inputs.push(AnyValue::LocalVarRef(ValueLocalVarRef));
    inputs.push(copy_type(&ty));
    let mut result = NodeKind::new(19, 1, 1, inputs, Vec::new());
    let selected = match local_index(ty.get_server_type()) {
        Some(i) => i,
        None => {
            assert(false);
            0
        },
    };
    result.kernel_id = if selected == 0 {
        19
    } else if selected == 1 {
        21
    } else {
        2672 + selected as i64
    };
    select(&mut result.selectors_in, 1, selected);
    assert(result.selectors_in@ =~= seq![None, Some(selected)]);
    result
}


// ---------------------------------------------------------------------------
// Laws of the variant tables.
// ---------------------------------------------------------------------------

/// Each type that equality compares has an Equal variant of its own: two
/// values of different types are compared by different kernels, under
/// different variant indices, and the variant indices rise with the
/// kernels.
pub proof fn lemma_equal_variants_distinct(a: AnyValue, b: AnyValue)
    requires
        equal_variant(a) is Some,
        equal_variant(b) is Some,
    ensures
        server_type_of(a) != server_type_of(b) ==> {
            &&& variant_kernel(equal_variant(a)) != variant_kernel(equal_variant(b))
            &&& variant_index(equal_variant(a)) != variant_index(equal_variant(b))
        },
        variant_index(equal_variant(a)) < variant_index(equal_variant(b)) <==> variant_kernel(
            equal_variant(a),
        ) < variant_kernel(equal_variant(b)),
{
}

/// Numbers are compared by their own Equal variants: integers by kernel
/// 370 under variant 5, floats by kernel 371 under variant 6.
pub proof fn lemma_equal_numbers(i: ValueInt, f: ValueFloat)
    ensures
        equal_variant(AnyValue::Int(i)) == Some((5i32, 370i64)),
        equal_variant(AnyValue::Float(f)) == Some((6i32, 371i64)),
{
}

/// Where a conversion from `from` to `to` stands in the order of the
/// conversion kernels: by the source type (integer, entity, GUID, boolean,
/// float, vector), then by the target type (boolean, float, integer,
/// string).
pub open spec fn conversion_order(from: ServerTypeId, to: ServerTypeId) -> int {
    let f: int = match from {
        ServerTypeId::SInt => 0,
        ServerTypeId::SEntity => 1,
        ServerTypeId::SGuid => 2,
        ServerTypeId::SBoolean => 3,
        ServerTypeId::SFloat => 4,
        _ => 5,
    };
    let t: int = match to {
        ServerTypeId::SBoolean => 0,
        ServerTypeId::SFloat => 1,
        ServerTypeId::SInt => 2,
        _ => 3,
    };
    f * 4 + t
}

/// The ten conversions have the ten kernels 180 to 189, one each, rising in
/// the order of `conversion_order`: so no two conversions share a kernel,
/// and each kernel follows from where its pair stands.
pub proof fn lemma_convert_kernels_ordered(
    f1: ServerTypeId,
    t1: ServerTypeId,
    f2: ServerTypeId,
    t2: ServerTypeId,
)
    requires
        convert_kernel(f1, t1) is Some,
        convert_kernel(f2, t2) is Some,
    ensures
        180 <= convert_kernel(f1, t1)->0 <= 189,
        conversion_order(f1, t1) < conversion_order(f2, t2) ==> convert_kernel(f1, t1)->0
            < convert_kernel(f2, t2)->0,
        (f1, t1) != (f2, t2) ==> convert_kernel(f1, t1) != convert_kernel(f2, t2),
{
}

/// Every kernel from 180 to 189 is the kernel of some conversion: with
/// `lemma_convert_kernels_ordered`, the ten conversions take the ten
/// kernels in the order of `conversion_order`.
pub proof fn lemma_convert_kernels_onto(k: i64)
    requires
        180 <= k <= 189,
    ensures
        exists|f: ServerTypeId, t: ServerTypeId| convert_kernel(f, t) == Some(k),
{
    if k == 180 {
        assert(convert_kernel(ServerTypeId::SInt, ServerTypeId::SBoolean) == Some(k));
    } else if k == 181 {
        assert(convert_kernel(ServerTypeId::SInt, ServerTypeId::SFloat) == Some(k));
    } else if k == 182 {
        assert(convert_kernel(ServerTypeId::SInt, ServerTypeId::SString) == Some(k));
    } else if k == 183 {
        assert(convert_kernel(ServerTypeId::SEntity, ServerTypeId::SString) == Some(k));
    } else if k == 184 {
        assert(convert_kernel(ServerTypeId::SGuid, ServerTypeId::SString) == Some(k));
    } else if k == 185 {
        assert(convert_kernel(ServerTypeId::SBoolean, ServerTypeId::SInt) == Some(k));
    } else if k == 186 {
        assert(convert_kernel(ServerTypeId::SBoolean, ServerTypeId::SString) == Some(k));
    } else if k == 187 {
        assert(convert_kernel(ServerTypeId::SFloat, ServerTypeId::SInt) == Some(k));
    } else if k == 188 {
        assert(convert_kernel(ServerTypeId::SFloat, ServerTypeId::SString) == Some(k));
    } else {
        assert(convert_kernel(ServerTypeId::SVector, ServerTypeId::SString) == Some(k));
    }
}

/// Casting a boolean to an integer takes kernel 185, and casting back
/// takes kernel 180: the two directions differ.
pub proof fn lemma_convert_bool_int(b: ValueBool, i: ValueInt)
    ensures
        convert_kernel(server_type_of(AnyValue::Bool(b)), server_type_of(AnyValue::Int(i))) == Some(
            185i64,
        ),
        convert_kernel(server_type_of(AnyValue::Int(i)), server_type_of(AnyValue::Bool(b))) == Some(
            180i64,
        ),
{
}

} // verus!
