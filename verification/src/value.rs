//! Values that a node graph carries, and how each is encoded into the
//! message tree of the asset format.

use vstd::prelude::*;

use crate::ids::Side;
use crate::message::{
    Backend, ClientType, ClientTypeId, Enum, Flt, Id, Int, ListStorage, MapKeyValueBinding, MapPairStorage,
    MapStorage, Schema, ServerType, ServerTypeId, Storage, Str, StructReference, StructStorage,
    TypeDefinition, TypeDetail, TypeInfoDetail, TypedValue, Vec3f, WidgetType,
};

verus! {

#[derive(Clone, Copy, Debug, PartialEq, Eq, Structural)]
pub struct ValueBool(pub bool);

#[derive(Clone, Copy, Debug, PartialEq, Eq, Structural)]
pub struct ValueInt(pub i32);

#[derive(Clone, Debug)]
pub struct ValueString(pub String);

/// A single-precision number, held by the bits of its IEEE 754 form.
#[derive(Clone, Copy, Debug, PartialEq, Eq, Structural)]
pub struct ValueFloat(pub u32);

/// A vector of three single-precision numbers, each held by its bits.
#[derive(Clone, Copy, Debug, PartialEq, Eq, Structural)]
pub struct ValueVec3 {
    pub x: u32,
    pub y: u32,
    pub z: u32,
}

/// A globally unique id.
#[derive(Clone, Copy, Debug, PartialEq, Eq, Structural)]
pub struct ValueGuid(pub i64);

/// A handle to an entity at run time.
#[derive(Clone, Copy, Debug, PartialEq, Eq, Structural)]
pub struct ValueEntity;

/// An item of the enum numbered `id`.
#[derive(Clone, Copy, Debug, PartialEq, Eq, Structural)]
pub struct ValueEnum {
    pub id: i64,
    pub index: i64,
}

#[derive(Clone, Copy, Debug, PartialEq, Eq, Structural)]
pub struct ValueFaction(pub i64);

#[derive(Clone, Copy, Debug, PartialEq, Eq, Structural)]
pub struct ValueConfig(pub i64);

#[derive(Clone, Copy, Debug, PartialEq, Eq, Structural)]
pub struct ValuePrefab(pub i64);

/// A reference to a local variable (server only).
#[derive(Clone, Copy, Debug, PartialEq, Eq, Structural)]
pub struct ValueLocalVarRef;

/// A reference to a snapshot of variables (server only).
#[derive(Clone, Copy, Debug, PartialEq, Eq, Structural)]
pub struct ValueVarSnapshotRef;

#[derive(Clone, Debug)]
pub struct ValueEntityList(pub Vec<i64>);

#[derive(Clone, Debug)]
pub struct ValueGuidList(pub Vec<i64>);

#[derive(Clone, Debug)]
pub struct ValueIntList(pub Vec<i32>);

#[derive(Clone, Debug)]
pub struct ValueBoolList(pub Vec<bool>);

#[derive(Clone, Debug)]
pub struct ValueFloatList(pub Vec<u32>);

#[derive(Clone, Debug)]
pub struct ValueStringList(pub Vec<String>);

#[derive(Clone, Debug)]
pub struct ValueVectorList(pub Vec<(u32, u32, u32)>);

#[derive(Clone, Debug)]
pub struct ValueEnumList(pub Vec<ValueEnum>);

/// Factions (server only).
#[derive(Clone, Debug)]
pub struct ValueFactionList(pub Vec<i64>);

#[derive(Clone, Debug)]
pub struct ValueConfigList(pub Vec<i64>);

/// Prefabs (server only).
#[derive(Clone, Debug)]
pub struct ValuePrefabList(pub Vec<i64>);

/// A dictionary (server only). The key and value types are carried by
/// sample values, so that an empty dictionary still has a type.
#[derive(Debug)]
pub struct ValueDict {
    pub key_type: AnyValue,
    pub value_type: AnyValue,
    pub data: Vec<(AnyValue, AnyValue)>,
}

/// A value of the structure whose schema id is `struct_id` (server only).
#[derive(Debug)]
pub struct ValueStruct {
    pub struct_id: i64,
    pub fields: Vec<AnyValue>,
}

/// The type of a computation that never yields; only the compiler uses it.
#[derive(Clone, Copy, Debug, PartialEq, Eq, Structural)]
pub struct ValueIrNever;

/// A not yet lowered algebraic data type, named; only the compiler uses it.
#[derive(Clone, Debug)]
pub struct ValueIrAdt(pub String);

/// Any value that a pin, a variable or a field can hold.
#[derive(Debug)]
pub enum AnyValue {
    Bool(ValueBool),
    Int(ValueInt),
    Str(ValueString),
    Float(ValueFloat),
    Vec3(ValueVec3),
    Guid(ValueGuid),
    Entity(ValueEntity),
    Enum(ValueEnum),
    Faction(ValueFaction),
    Config(ValueConfig),
    Prefab(ValuePrefab),
    LocalVarRef(ValueLocalVarRef),
    VarSnapshotRef(ValueVarSnapshotRef),
    EntityList(ValueEntityList),
    GuidList(ValueGuidList),
    IntList(ValueIntList),
    BoolList(ValueBoolList),
    FloatList(ValueFloatList),
    StringList(ValueStringList),
    VectorList(ValueVectorList),
    EnumList(ValueEnumList),
    FactionList(ValueFactionList),
    ConfigList(ValueConfigList),
    PrefabList(ValuePrefabList),
    Dict(Box<ValueDict>),
    Struct(ValueStruct),
    IrNever(ValueIrNever),
    IrAdt(ValueIrAdt),
}

/// Errors of the value constructors.
#[derive(Clone, Copy, Debug, PartialEq, Eq, Structural)]
pub enum ValueError {
    /// A dictionary without entries gives no key and value type.
    CannotInferType,
}

// ---------------------------------------------------------------------------
// The model: what each value's type, widget and encoding is.
// ---------------------------------------------------------------------------

pub open spec fn server_type_of(v: AnyValue) -> ServerTypeId {
    match v {
        AnyValue::Bool(_) => ServerTypeId::SBoolean,
        AnyValue::Int(_) => ServerTypeId::SInt,
        AnyValue::Str(_) => ServerTypeId::SString,
        AnyValue::Float(_) => ServerTypeId::SFloat,
        AnyValue::Vec3(_) => ServerTypeId::SVector,
        AnyValue::Guid(_) => ServerTypeId::SGuid,
        AnyValue::Entity(_) => ServerTypeId::SEntity,
        AnyValue::Enum(_) => ServerTypeId::SEnumItem,
        AnyValue::Faction(_) => ServerTypeId::SFaction,
        AnyValue::Config(_) => ServerTypeId::SConfig,
        AnyValue::Prefab(_) => ServerTypeId::SPrefab,
        AnyValue::LocalVarRef(_) => ServerTypeId::SLocalVarRef,
        AnyValue::VarSnapshotRef(_) => ServerTypeId::SVarSnapshotRef,
        AnyValue::EntityList(_) => ServerTypeId::SEntityList,
        AnyValue::GuidList(_) => ServerTypeId::SGuidList,
        AnyValue::IntList(_) => ServerTypeId::SIntList,
        AnyValue::BoolList(_) => ServerTypeId::SBooleanList,
        AnyValue::FloatList(_) => ServerTypeId::SFloatList,
        AnyValue::StringList(_) => ServerTypeId::SStringList,
        AnyValue::VectorList(_) => ServerTypeId::SVectorList,
        AnyValue::EnumList(_) => ServerTypeId::SEnumList,
        AnyValue::FactionList(_) => ServerTypeId::SFactionList,
        AnyValue::ConfigList(_) => ServerTypeId::SConfigList,
        AnyValue::PrefabList(_) => ServerTypeId::SPrefabList,
        AnyValue::Dict(_) => ServerTypeId::SDict,
        AnyValue::Struct(_) => ServerTypeId::SStruct,
        AnyValue::IrNever(_) => ServerTypeId::ServerUnknown,
        AnyValue::IrAdt(_) => ServerTypeId::ServerUnknown,
    }
}

pub open spec fn client_type_of(v: AnyValue) -> ClientTypeId {
    match v {
        AnyValue::Bool(_) => ClientTypeId::CBoolean,
        AnyValue::Int(_) => ClientTypeId::CInt,
        AnyValue::Str(_) => ClientTypeId::CString,
        AnyValue::Float(_) => ClientTypeId::CFloat,
        AnyValue::Vec3(_) => ClientTypeId::CVector,
        AnyValue::Guid(_) => ClientTypeId::CGuid,
        AnyValue::Entity(_) => ClientTypeId::CEntity,
        AnyValue::Enum(_) => ClientTypeId::CEnumItem,
        AnyValue::Faction(_) => ClientTypeId::CFaction,
        AnyValue::Config(_) => ClientTypeId::CConfig,
        AnyValue::Prefab(_) => ClientTypeId::CPrefab,
        AnyValue::EntityList(_) => ClientTypeId::CEntityList,
        AnyValue::GuidList(_) => ClientTypeId::CGuidList,
        AnyValue::IntList(_) => ClientTypeId::CIntList,
        AnyValue::BoolList(_) => ClientTypeId::CBooleanList,
        AnyValue::FloatList(_) => ClientTypeId::CFloatList,
        AnyValue::StringList(_) => ClientTypeId::CStringList,
        AnyValue::VectorList(_) => ClientTypeId::CVectorList,
        AnyValue::EnumList(_) => ClientTypeId::CEnumList,
        AnyValue::ConfigList(_) => ClientTypeId::CConfigList,
        _ => ClientTypeId::ClientUnknown,
    }
}

/// The widget that the editor uses for a value of server type `t`.
pub open spec fn widget_of(t: ServerTypeId) -> WidgetType {
    match t {
        ServerTypeId::SInt => WidgetType::NumberInput,
        ServerTypeId::SFloat => WidgetType::DecimalInput,
        ServerTypeId::SString => WidgetType::TextInput,
        ServerTypeId::SBoolean | ServerTypeId::SEnumItem => WidgetType::EnumPicker,
        ServerTypeId::SGuid | ServerTypeId::SEntity | ServerTypeId::SFaction
        | ServerTypeId::SConfig | ServerTypeId::SPrefab | ServerTypeId::SLocalVarRef
        | ServerTypeId::SVarSnapshotRef => WidgetType::IdInput,
        ServerTypeId::SVector => WidgetType::VectorGroup,
        ServerTypeId::SGuidList | ServerTypeId::SIntList | ServerTypeId::SBooleanList
        | ServerTypeId::SFloatList | ServerTypeId::SStringList | ServerTypeId::SEntityList
        | ServerTypeId::SVectorList | ServerTypeId::SEnumList | ServerTypeId::SFactionList
        | ServerTypeId::SConfigList | ServerTypeId::SPrefabList
        | ServerTypeId::SStructList => WidgetType::ListGroup,
        ServerTypeId::SStruct => WidgetType::StructBlock,
        ServerTypeId::SDict => WidgetType::MapGroup,
        _ => WidgetType::Unknown,
    }
}

/// The schema id of a structure value, if `v` is one.
pub open spec fn struct_id_of(v: AnyValue) -> Option<i64> {
    match v {
        AnyValue::Struct(s) => Some(s.struct_id),
        _ => None,
    }
}

pub open spec fn schema_of(v: AnyValue) -> Option<Schema> {
    match v {
        AnyValue::Dict(d) => Some(
            Schema::MapBinding(
                MapKeyValueBinding {
                    key_type: server_type_of(d.key_type).spec_code(),
                    value_type: server_type_of(d.value_type).spec_code(),
                    value_struct_id: struct_id_of(d.value_type),
                },
            ),
        ),
        AnyValue::Struct(s) => Some(Schema::StructRef(StructReference { schema_id: s.struct_id })),
        _ => None,
    }
}

pub open spec fn type_detail_of(v: AnyValue, side: Side) -> TypeDetail {
    match side {
        Side::Server => TypeDetail::ServerSide(
            ServerType {
                type_tag: server_type_of(v).spec_code(),
                implementation: 0,
                schema: schema_of(v),
            },
        ),
        Side::Client => TypeDetail::ClientSide(ClientType { type_tag: client_type_of(v).spec_code() }),
    }
}

pub open spec fn backend_of(side: Side) -> Backend {
    match side {
        Side::Server => Backend::Server,
        Side::Client => Backend::Client,
    }
}

/// The type detail that a pin of a node interface gives for `v`.
pub open spec fn info_detail_of(v: AnyValue) -> Option<TypeInfoDetail> {
    match v {
        AnyValue::Bool(_) => Some(TypeInfoDetail::EnumId(1)),
        AnyValue::Enum(e) => Some(TypeInfoDetail::EnumId(e.id)),
        AnyValue::Dict(d) => Some(
            TypeInfoDetail::MapType {
                key: server_type_of(d.key_type).spec_code(),
                value: server_type_of(d.value_type).spec_code(),
                value_id: struct_id_of(d.value_type),
                unknown: 1,
                unknown1: 1,
            },
        ),
        AnyValue::Struct(s) => Some(TypeInfoDetail::StructId(s.struct_id)),
        _ => None,
    }
}

/// Whether a value of type `a` accepts `b`: the same kind of value, with
/// the same enum, the same structure, or dictionary types that accept
/// each other's key and value types.
pub open spec fn instance_of(a: AnyValue, b: AnyValue) -> bool
    decreases a,
{
    match a {
        AnyValue::Enum(e) => b matches AnyValue::Enum(o) && o.id == e.id,
        AnyValue::Dict(d) => match b {
            AnyValue::Dict(o) => instance_of(d.key_type, o.key_type) && instance_of(
                d.value_type,
                o.value_type,
            ),
            _ => false,
        },
        AnyValue::Struct(s) => b matches AnyValue::Struct(o) && o.struct_id == s.struct_id,
        AnyValue::IrAdt(n) => match b {
            AnyValue::IrAdt(o) => o.0@ == n.0@,
            AnyValue::Struct(_) => true,
            AnyValue::Int(_) => true,
            _ => false,
        },
        _ => same_kind(a, b),
    }
}

/// `a` and `b` are the same kind of value.
pub open spec fn same_kind(a: AnyValue, b: AnyValue) -> bool {
    match (a, b) {
        (AnyValue::Bool(_), AnyValue::Bool(_)) => true,
        (AnyValue::Int(_), AnyValue::Int(_)) => true,
        (AnyValue::Str(_), AnyValue::Str(_)) => true,
        (AnyValue::Float(_), AnyValue::Float(_)) => true,
        (AnyValue::Vec3(_), AnyValue::Vec3(_)) => true,
        (AnyValue::Guid(_), AnyValue::Guid(_)) => true,
        (AnyValue::Entity(_), AnyValue::Entity(_)) => true,
        (AnyValue::Enum(_), AnyValue::Enum(_)) => true,
        (AnyValue::Faction(_), AnyValue::Faction(_)) => true,
        (AnyValue::Config(_), AnyValue::Config(_)) => true,
        (AnyValue::Prefab(_), AnyValue::Prefab(_)) => true,
        (AnyValue::LocalVarRef(_), AnyValue::LocalVarRef(_)) => true,
        (AnyValue::VarSnapshotRef(_), AnyValue::VarSnapshotRef(_)) => true,
        (AnyValue::EntityList(_), AnyValue::EntityList(_)) => true,
        (AnyValue::GuidList(_), AnyValue::GuidList(_)) => true,
        (AnyValue::IntList(_), AnyValue::IntList(_)) => true,
        (AnyValue::BoolList(_), AnyValue::BoolList(_)) => true,
        (AnyValue::FloatList(_), AnyValue::FloatList(_)) => true,
        (AnyValue::StringList(_), AnyValue::StringList(_)) => true,
        (AnyValue::VectorList(_), AnyValue::VectorList(_)) => true,
        (AnyValue::EnumList(_), AnyValue::EnumList(_)) => true,
        (AnyValue::FactionList(_), AnyValue::FactionList(_)) => true,
        (AnyValue::ConfigList(_), AnyValue::ConfigList(_)) => true,
        (AnyValue::PrefabList(_), AnyValue::PrefabList(_)) => true,
        (AnyValue::Dict(_), AnyValue::Dict(_)) => true,
        (AnyValue::Struct(_), AnyValue::Struct(_)) => true,
        (AnyValue::IrNever(_), AnyValue::IrNever(_)) => true,
        (AnyValue::IrAdt(_), AnyValue::IrAdt(_)) => true,
        _ => false,
    }
}

/// A value has a content encoding: no compiler-internal type occurs in it.
pub open spec fn encodable(v: AnyValue) -> bool
    decreases v,
{
    match v {
        AnyValue::IrNever(_) => false,
        AnyValue::IrAdt(_) => false,
        AnyValue::Dict(d) => forall|i: int|
            #![trigger d.data@[i]]
            0 <= i < d.data@.len() ==> encodable(d.data@[i].0) && encodable(d.data@[i].1),
        AnyValue::Struct(s) => forall|i: int|
            #![trigger s.fields@[i]]
            0 <= i < s.fields@.len() ==> encodable(s.fields@[i]),
        _ => true,
    }
}

pub open spec fn bool_code(b: bool) -> i64 {
    if b {
        1
    } else {
        0
    }
}

/// `tv` is the encoding of `v`, set or not, for `side`.
pub open spec fn typed_ok(tv: TypedValue, v: AnyValue, is_set: bool, side: Side) -> bool
    decreases v, 1int,
{
    &&& tv.widget == widget_of(server_type_of(v))
    &&& tv.is_set == is_set
    &&& tv.type_def == Some(
        TypeDefinition { backend: backend_of(side), type_detail: Some(type_detail_of(v, side)) },
    )
    &&& if is_set {
        storage_ok(tv.storage, v, side)
    } else {
        tv.storage is None
    }
}

/// `tvs` are, in order, the set encodings of `vals` for the server.
pub open spec fn leaf_list_ok(tvs: Seq<TypedValue>, vals: Seq<AnyValue>) -> bool {
    &&& tvs.len() == vals.len()
    &&& forall|i: int| 0 <= i < tvs.len() ==> leaf_typed_ok(#[trigger] tvs[i], vals[i], Side::Server)
}

/// `tv` is the set encoding for `side` of a value without nested values.
pub open spec fn leaf_typed_ok(tv: TypedValue, v: AnyValue, side: Side) -> bool {
    &&& tv.widget == widget_of(server_type_of(v))
    &&& tv.is_set
    &&& tv.type_def == Some(
        TypeDefinition { backend: backend_of(side), type_detail: Some(type_detail_of(v, side)) },
    )
    &&& leaf_storage_ok(tv.storage, v)
}

/// The content encoding of a value without nested values.
pub open spec fn leaf_storage_ok(st: Option<Storage>, v: AnyValue) -> bool {
    match v {
        AnyValue::Bool(b) => st == Some(Storage::ValEnum(Enum { value: bool_code(b.0) })),
        AnyValue::Int(i) => st == Some(Storage::ValInt(Int { value: i.0 })),
        AnyValue::Str(s) => st matches Some(Storage::ValString(x)) && x.value@ == s.0@,
        AnyValue::Float(f) => st == Some(Storage::ValFloat(Flt { value: f.0 })),
        AnyValue::Vec3(v) => st == Some(Storage::ValVector(Vec3f { x: v.x, y: v.y, z: v.z })),
        AnyValue::Guid(g) => st == Some(Storage::ValId(Id { value: g.0 })),
        AnyValue::Entity(_) => st is None,
        AnyValue::Enum(e) => st == Some(Storage::ValEnum(Enum { value: e.index })),
        AnyValue::Faction(x) => st == Some(Storage::ValId(Id { value: x.0 })),
        AnyValue::Config(x) => st == Some(Storage::ValId(Id { value: x.0 })),
        AnyValue::Prefab(x) => st == Some(Storage::ValId(Id { value: x.0 })),
        AnyValue::LocalVarRef(_) => st is None,
        AnyValue::VarSnapshotRef(_) => st is None,
        _ => false,
    }
}

/// The elements of a list value, each as the value it is encoded as.
pub open spec fn list_items(v: AnyValue) -> Seq<AnyValue> {
    match v {
        AnyValue::EntityList(l) => l.0@.map_values(|_x: i64| AnyValue::Entity(ValueEntity)),
        AnyValue::GuidList(l) => l.0@.map_values(|x: i64| AnyValue::Guid(ValueGuid(x))),
        AnyValue::IntList(l) => l.0@.map_values(|x: i32| AnyValue::Int(ValueInt(x))),
        AnyValue::BoolList(l) => l.0@.map_values(|x: bool| AnyValue::Bool(ValueBool(x))),
        AnyValue::StringList(l) => l.0@.map_values(|x: String| AnyValue::Str(ValueString(x))),
        AnyValue::FloatList(l) => l.0@.map_values(|x: u32| AnyValue::Float(ValueFloat(x))),
        AnyValue::VectorList(l) => l.0@.map_values(
            |v: (u32, u32, u32)| AnyValue::Vec3(ValueVec3 { x: v.0, y: v.1, z: v.2 }),
        ),
        AnyValue::FactionList(l) => l.0@.map_values(|x: i64| AnyValue::Faction(ValueFaction(x))),
        AnyValue::ConfigList(l) => l.0@.map_values(|x: i64| AnyValue::Config(ValueConfig(x))),
        AnyValue::PrefabList(l) => l.0@.map_values(|x: i64| AnyValue::Prefab(ValuePrefab(x))),
        _ => Seq::empty(),
    }
}

/// A list of values without nested values, whose items are encoded for the
/// server whatever the side.
pub open spec fn is_leaf_list(v: AnyValue) -> bool {
    match v {
        AnyValue::EntityList(_) | AnyValue::GuidList(_) | AnyValue::IntList(_)
        | AnyValue::BoolList(_) | AnyValue::StringList(_) | AnyValue::FactionList(_)
        | AnyValue::FloatList(_) | AnyValue::VectorList(_)
        | AnyValue::ConfigList(_) | AnyValue::PrefabList(_) => true,
        _ => false,
    }
}

/// `st` is the content encoding of `v` for `side`.
pub open spec fn storage_ok(st: Option<Storage>, v: AnyValue, side: Side) -> bool
    decreases v, 0int,
{
    match v {
        AnyValue::EnumList(l) => match st {
            Some(Storage::ValList(ls)) => {
                &&& ls.element@.len() == l.0@.len()
                &&& forall|i: int|
                    0 <= i < ls.element@.len() ==> leaf_typed_ok(
                        #[trigger] ls.element@[i],
                        AnyValue::Enum(l.0@[i]),
                        side,
                    )
            },
            _ => false,
        },
        AnyValue::Dict(d) => match st {
            Some(Storage::ValMap(m)) => {
                &&& m.pairs@.len() == d.data@.len()
                &&& forall|i: int|
                    0 <= i < m.pairs@.len() ==> {
                        let tv = #[trigger] m.pairs@[i];
                        &&& tv.widget == WidgetType::MapPairItem
                        &&& tv.is_set
                        &&& tv.type_def is None
                        &&& match tv.storage {
                            Some(Storage::ValPair(p)) => {
                                &&& p.key matches Some(k) && typed_ok(
                                    *k,
                                    d.data@[i].0,
                                    true,
                                    side,
                                )
                                &&& p.value matches Some(x) && typed_ok(
                                    *x,
                                    d.data@[i].1,
                                    true,
                                    side,
                                )
                            },
                            _ => false,
                        }
                    }
            },
            _ => false,
        },
        AnyValue::Struct(s) => match st {
            Some(Storage::ValStruct(ss)) => {
                &&& ss.field@.len() == s.fields@.len()
                &&& forall|i: int|
                    0 <= i < ss.field@.len() ==> typed_ok(
                        #[trigger] ss.field@[i],
                        s.fields@[i],
                        true,
                        side,
                    )
            },
            _ => false,
        },
        _ => if is_leaf_list(v) {
            st matches Some(Storage::ValList(ls)) && leaf_list_ok(ls.element@, list_items(v))
        } else {
            leaf_storage_ok(st, v)
        },
    }
}

// ---------------------------------------------------------------------------
// The encodings.
// ---------------------------------------------------------------------------

impl ValueBool {
    pub fn encode(&self) -> (r: Enum)
        ensures
            r.value == bool_code(self.0),
    {
        Enum { value: if self.0 { 1 } else { 0 } }
    }
}

impl ValueInt {
    pub fn encode(&self) -> (r: Int)
        ensures
            r.value == self.0,
    {
        Int { value: self.0 }
    }
}

impl ValueString {
    pub fn encode(&self) -> (r: Str)
        ensures
            r.value@ == self.0@,
    {
        Str { value: self.0.clone() }
    }
}

impl ValueGuid {
    pub fn encode(&self) -> (r: Id)
        ensures
            r.value == self.0,
    {
        Id { value: self.0 }
    }
}

impl ValueEnum {
    pub fn new(id: i64, index: i64) -> (r: Self)
        ensures
            r.id == id,
            r.index == index,
    {
        Self { id, index }
    }
}

/// A list storage made of the given element encodings.
pub fn list_storage(elements: Vec<TypedValue>) -> (r: ListStorage)
    ensures
        r.element@ == elements@,
{
    ListStorage { element: elements }
}

impl ValueDict {
    /// An empty dictionary of the given key and value types.
    pub fn new(key_type: AnyValue, value_type: AnyValue) -> (r: Self)
        ensures
            r.key_type == key_type,
            r.value_type == value_type,
            r.data@.len() == 0,
    {
        Self { key_type, value_type, data: Vec::new() }
    }

    /// A dictionary whose key and value types are those of its first entry.
    pub fn infer(data: Vec<(AnyValue, AnyValue)>) -> (r: Result<Self, ValueError>)
        ensures
            data@.len() == 0 <==> r is Err,
            r matches Ok(d) ==> {
                &&& d.data@ == data@
                &&& same_value(d.key_type, data@[0].0)
                &&& same_value(d.value_type, data@[0].1)
            },
            r matches Err(e) ==> e == ValueError::CannotInferType,
    {
        if data.len() == 0 {
            return Err(ValueError::CannotInferType);
        }
        let key_type = data[0].0.duplicate();
        let value_type = data[0].1.duplicate();
        Ok(Self { key_type, value_type, data })
    }
}

/// `a` and `b` hold the same content.
pub open spec fn same_value(a: AnyValue, b: AnyValue) -> bool
    decreases a,
{
    match (a, b) {
        (AnyValue::Str(x), AnyValue::Str(y)) => x.0@ == y.0@,
        (AnyValue::EntityList(x), AnyValue::EntityList(y)) => x.0@ == y.0@,
        (AnyValue::GuidList(x), AnyValue::GuidList(y)) => x.0@ == y.0@,
        (AnyValue::IntList(x), AnyValue::IntList(y)) => x.0@ == y.0@,
        (AnyValue::BoolList(x), AnyValue::BoolList(y)) => x.0@ == y.0@,
        (AnyValue::StringList(x), AnyValue::StringList(y)) => x.0@ == y.0@,
        (AnyValue::FloatList(x), AnyValue::FloatList(y)) => x.0@ == y.0@,
        (AnyValue::VectorList(x), AnyValue::VectorList(y)) => x.0@ == y.0@,
        (AnyValue::EnumList(x), AnyValue::EnumList(y)) => x.0@ == y.0@,
        (AnyValue::FactionList(x), AnyValue::FactionList(y)) => x.0@ == y.0@,
        (AnyValue::ConfigList(x), AnyValue::ConfigList(y)) => x.0@ == y.0@,
        (AnyValue::PrefabList(x), AnyValue::PrefabList(y)) => x.0@ == y.0@,
        (AnyValue::IrAdt(x), AnyValue::IrAdt(y)) => x.0@ == y.0@,
        (AnyValue::Dict(x), AnyValue::Dict(y)) => {
            &&& same_value(x.key_type, y.key_type)
            &&& same_value(x.value_type, y.value_type)
            &&& x.data@.len() == y.data@.len()
            &&& forall|i: int|
                0 <= i < x.data@.len() ==> same_value(#[trigger] x.data@[i].0, y.data@[i].0)
                    && same_value(x.data@[i].1, y.data@[i].1)
        },
        (AnyValue::Struct(x), AnyValue::Struct(y)) => {
            &&& x.struct_id == y.struct_id
            &&& x.fields@.len() == y.fields@.len()
            &&& forall|i: int|
                0 <= i < x.fields@.len() ==> same_value(#[trigger] x.fields@[i], y.fields@[i])
        },
        (AnyValue::Str(_), _) | (AnyValue::EntityList(_), _) | (AnyValue::GuidList(_), _)
        | (AnyValue::IntList(_), _) | (AnyValue::BoolList(_), _) | (AnyValue::StringList(_), _)
        | (AnyValue::EnumList(_), _) | (AnyValue::FactionList(_), _) | (AnyValue::ConfigList(_), _)
        | (AnyValue::PrefabList(_), _) | (AnyValue::IrAdt(_), _) | (AnyValue::Dict(_), _)
        | (AnyValue::FloatList(_), _) | (AnyValue::VectorList(_), _)
        | (AnyValue::Struct(_), _) => false,
        _ => a == b,
    }
}

} // verus!

verus! {

pub(crate) fn copy_all<T: Copy>(v: &Vec<T>) -> (r: Vec<T>)
    ensures
        r@ == v@,
{
    let mut r: Vec<T> = Vec::new();
    let mut i: usize = 0;
    while i < v.len()
        invariant
            i <= v@.len(),
            r@ == v@.subrange(0, i as int),
        decreases v@.len() - i,
    {
        r.push(v[i]);
        assert(v@.subrange(0, i + 1) =~= v@.subrange(0, i as int).push(v@[i as int]));
        i = i + 1;
    }
    assert(v@.subrange(0, v@.len() as int) =~= v@);
    r
}

impl AnyValue {
    /// A copy that holds the same content.
    pub fn duplicate(&self) -> (r: AnyValue)
        ensures
            same_value(r, *self),
            same_value(*self, r),
        decreases self,
    {
        match self {
            AnyValue::Dict(d) => {
                let key_type = d.key_type.duplicate();
                let value_type = d.value_type.duplicate();
                let mut data: Vec<(AnyValue, AnyValue)> = Vec::new();
                let n = d.data.len();
                let mut i: usize = 0;
                while i < n
                    invariant
                        *self == AnyValue::Dict(*d),
                        n == d.data@.len(),
                        i <= n,
                        data@.len() == i,
                        forall|j: int|
                            0 <= j < i ==> same_value(#[trigger] data@[j].0, d.data@[j].0)
                                && same_value(d.data@[j].0, data@[j].0)
                                && same_value(data@[j].1, d.data@[j].1)
                                && same_value(d.data@[j].1, data@[j].1),
                    decreases n - i,
                {
                    proof {
                        vstd::std_specs::vec::axiom_vec_index_decreases(d.data, i as int);
                        assert(decreases_to!(*self => self->Dict_0));
                    }
                    let k = d.data[i].0.duplicate();
                    let v = d.data[i].1.duplicate();
                    let ghost pair = (k, v);
                    let ghost before = data@;
                    data.push((k, v));
                    assert(forall|j: int| 0 <= j < i ==> data@[j] == before[j]);
                    assert(data@[i as int] == pair);
                    i = i + 1;
                }
                assert forall|j: int| 0 <= j < n implies same_value(#[trigger] d.data@[j].0, data@[j].0)
                    && same_value(d.data@[j].1, data@[j].1) by {
                    let _ = data@[j].0;
                }
                let ghost gdata = data@;
                let ghost gk = key_type;
                let ghost gv = value_type;
                let r = AnyValue::Dict(Box::new(ValueDict { key_type, value_type, data }));
                assert(r->Dict_0.data@ == gdata);
                assert(same_value(gk, d.key_type) && same_value(d.key_type, gk));
                assert(same_value(gv, d.value_type) && same_value(d.value_type, gv));
                assert forall|j: int| 0 <= j < gdata.len() implies same_value(
                    #[trigger] d.data@[j].0,
                    gdata[j].0,
                ) && same_value(d.data@[j].1, gdata[j].1) && same_value(gdata[j].0, d.data@[j].0)
                    && same_value(gdata[j].1, d.data@[j].1) by {
                    let _ = data@[j].0;
                }
                assert(same_value(*self, r));
                assert(same_value(r, *self));
                r
            },
            AnyValue::Struct(s) => {
                let mut fields: Vec<AnyValue> = Vec::new();
                let n = s.fields.len();
                for i in 0..n
                    invariant
                        *self == AnyValue::Struct(*s),
                        n == s.fields@.len(),
                        fields@.len() == i,
                        forall|j: int|
                            0 <= j < i ==> same_value(#[trigger] fields@[j], s.fields@[j])
                                && same_value(s.fields@[j], fields@[j]),
                {
                    proof {
                        vstd::std_specs::vec::axiom_vec_index_decreases(s.fields, i as int);
                        assert(decreases_to!(*self => self->Struct_0));
                        assert(decreases_to!(*self => s.fields[i as int]));
                    }
                    let f = s.fields[i].duplicate();
                    let ghost before = fields@;
                    fields.push(f);
                    assert(forall|j: int| 0 <= j < i ==> fields@[j] == before[j]);
                }
                let r = AnyValue::Struct(ValueStruct { struct_id: s.struct_id, fields });
                assert(same_value(*self, r));
                assert(same_value(r, *self));
                r
            },
            AnyValue::Str(x) => AnyValue::Str(ValueString(x.0.clone())),
            AnyValue::EntityList(x) => AnyValue::EntityList(ValueEntityList(x.0.clone())),
            AnyValue::GuidList(x) => AnyValue::GuidList(ValueGuidList(x.0.clone())),
            AnyValue::IntList(x) => AnyValue::IntList(ValueIntList(x.0.clone())),
            AnyValue::BoolList(x) => AnyValue::BoolList(ValueBoolList(x.0.clone())),
            AnyValue::StringList(x) => AnyValue::StringList(ValueStringList(x.0.clone())),
            AnyValue::FloatList(x) => {
                let r = AnyValue::FloatList(ValueFloatList(copy_all(&x.0)));
                assert(same_value(*self, r));
                r
            },
            AnyValue::VectorList(x) => {
                let r = AnyValue::VectorList(ValueVectorList(copy_all(&x.0)));
                assert(same_value(*self, r));
                r
            },
            AnyValue::Float(x) => {
                let r = AnyValue::Float(*x);
                assert(same_value(*self, r));
                r
            },
            AnyValue::Vec3(x) => {
                let r = AnyValue::Vec3(*x);
                assert(same_value(*self, r));
                r
            },
            AnyValue::EnumList(x) => AnyValue::EnumList(ValueEnumList(x.0.clone())),
            AnyValue::FactionList(x) => AnyValue::FactionList(ValueFactionList(x.0.clone())),
            AnyValue::ConfigList(x) => AnyValue::ConfigList(ValueConfigList(x.0.clone())),
            AnyValue::PrefabList(x) => AnyValue::PrefabList(ValuePrefabList(x.0.clone())),
            AnyValue::IrAdt(x) => AnyValue::IrAdt(ValueIrAdt(x.0.clone())),
            AnyValue::Bool(x) => AnyValue::Bool(*x),
            AnyValue::Int(x) => AnyValue::Int(*x),
            AnyValue::Guid(x) => AnyValue::Guid(*x),
            AnyValue::Entity(x) => AnyValue::Entity(*x),
            AnyValue::Enum(x) => AnyValue::Enum(*x),
            AnyValue::Faction(x) => AnyValue::Faction(*x),
            AnyValue::Config(x) => AnyValue::Config(*x),
            AnyValue::Prefab(x) => AnyValue::Prefab(*x),
            AnyValue::LocalVarRef(x) => AnyValue::LocalVarRef(*x),
            AnyValue::VarSnapshotRef(x) => AnyValue::VarSnapshotRef(*x),
            AnyValue::IrNever(x) => AnyValue::IrNever(*x),
        }
    }
}

} // verus!

verus! {

impl ValueBool {
    pub fn get_server_type(&self) -> (r: ServerTypeId)
        ensures
            r == ServerTypeId::SBoolean,
            r == server_type_of(AnyValue::Bool(*self)),
    {
        ServerTypeId::SBoolean
    }

    pub fn get_client_type(&self) -> (r: ClientTypeId)
        ensures
            r == ClientTypeId::CBoolean,
            r == client_type_of(AnyValue::Bool(*self)),
    {
        ClientTypeId::CBoolean
    }
    pub fn encode_storage(&self, side: Side) -> (r: Option<Storage>)
        ensures
            leaf_storage_ok(r, AnyValue::Bool(*self)),
            storage_ok(r, AnyValue::Bool(*self), side),
    {
        Some(Storage::ValEnum(self.encode()))
    }
}

impl ValueInt {
    pub fn get_server_type(&self) -> (r: ServerTypeId)
        ensures
            r == ServerTypeId::SInt,
            r == server_type_of(AnyValue::Int(*self)),
    {
        ServerTypeId::SInt
    }

    pub fn get_client_type(&self) -> (r: ClientTypeId)
        ensures
            r == ClientTypeId::CInt,
            r == client_type_of(AnyValue::Int(*self)),
    {
        ClientTypeId::CInt
    }
    pub fn encode_storage(&self, side: Side) -> (r: Option<Storage>)
        ensures
            leaf_storage_ok(r, AnyValue::Int(*self)),
            storage_ok(r, AnyValue::Int(*self), side),
    {
        Some(Storage::ValInt(self.encode()))
    }
}

impl ValueString {
    pub fn get_server_type(&self) -> (r: ServerTypeId)
        ensures
            r == ServerTypeId::SString,
            r == server_type_of(AnyValue::Str(*self)),
    {
        ServerTypeId::SString
    }

    pub fn get_client_type(&self) -> (r: ClientTypeId)
        ensures
            r == ClientTypeId::CString,
            r == client_type_of(AnyValue::Str(*self)),
    {
        ClientTypeId::CString
    }
    pub fn encode_storage(&self, side: Side) -> (r: Option<Storage>)
        ensures
            leaf_storage_ok(r, AnyValue::Str(*self)),
            storage_ok(r, AnyValue::Str(*self), side),
    {
        Some(Storage::ValString(self.encode()))
    }
}

impl ValueGuid {
    pub fn get_server_type(&self) -> (r: ServerTypeId)
        ensures
            r == ServerTypeId::SGuid,
            r == server_type_of(AnyValue::Guid(*self)),
    {
        ServerTypeId::SGuid
    }

    pub fn get_client_type(&self) -> (r: ClientTypeId)
        ensures
            r == ClientTypeId::CGuid,
            r == client_type_of(AnyValue::Guid(*self)),
    {
        ClientTypeId::CGuid
    }
    pub fn encode_storage(&self, side: Side) -> (r: Option<Storage>)
        ensures
            leaf_storage_ok(r, AnyValue::Guid(*self)),
            storage_ok(r, AnyValue::Guid(*self), side),
    {
        Some(Storage::ValId(self.encode()))
    }
}

impl ValueEntity {
    pub fn get_server_type(&self) -> (r: ServerTypeId)
        ensures
            r == ServerTypeId::SEntity,
            r == server_type_of(AnyValue::Entity(*self)),
    {
        ServerTypeId::SEntity
    }

    pub fn get_client_type(&self) -> (r: ClientTypeId)
        ensures
            r == ClientTypeId::CEntity,
            r == client_type_of(AnyValue::Entity(*self)),
    {
        ClientTypeId::CEntity
    }
    pub fn encode_storage(&self, side: Side) -> (r: Option<Storage>)
        ensures
            leaf_storage_ok(r, AnyValue::Entity(*self)),
            storage_ok(r, AnyValue::Entity(*self), side),
    {
        None
    }
}

impl ValueEnum {
    pub fn get_server_type(&self) -> (r: ServerTypeId)
        ensures
            r == ServerTypeId::SEnumItem,
            r == server_type_of(AnyValue::Enum(*self)),
    {
        ServerTypeId::SEnumItem
    }

    pub fn get_client_type(&self) -> (r: ClientTypeId)
        ensures
            r == ClientTypeId::CEnumItem,
            r == client_type_of(AnyValue::Enum(*self)),
    {
        ClientTypeId::CEnumItem
    }
    pub fn encode_storage(&self, side: Side) -> (r: Option<Storage>)
        ensures
            leaf_storage_ok(r, AnyValue::Enum(*self)),
            storage_ok(r, AnyValue::Enum(*self), side),
    {
        Some(Storage::ValEnum(Enum { value: self.index }))
    }
}

impl ValueFaction {
    pub fn get_server_type(&self) -> (r: ServerTypeId)
        ensures
            r == ServerTypeId::SFaction,
            r == server_type_of(AnyValue::Faction(*self)),
    {
        ServerTypeId::SFaction
    }

    pub fn get_client_type(&self) -> (r: ClientTypeId)
        ensures
            r == ClientTypeId::CFaction,
            r == client_type_of(AnyValue::Faction(*self)),
    {
        ClientTypeId::CFaction
    }
    pub fn encode_storage(&self, side: Side) -> (r: Option<Storage>)
        ensures
            leaf_storage_ok(r, AnyValue::Faction(*self)),
            storage_ok(r, AnyValue::Faction(*self), side),
    {
        Some(Storage::ValId(Id { value: self.0 }))
    }
}

impl ValueConfig {
    pub fn get_server_type(&self) -> (r: ServerTypeId)
        ensures
            r == ServerTypeId::SConfig,
            r == server_type_of(AnyValue::Config(*self)),
    {
        ServerTypeId::SConfig
    }

    pub fn get_client_type(&self) -> (r: ClientTypeId)
        ensures
            r == ClientTypeId::CConfig,
            r == client_type_of(AnyValue::Config(*self)),
    {
        ClientTypeId::CConfig
    }
    pub fn encode_storage(&self, side: Side) -> (r: Option<Storage>)
        ensures
            leaf_storage_ok(r, AnyValue::Config(*self)),
            storage_ok(r, AnyValue::Config(*self), side),
    {
        Some(Storage::ValId(Id { value: self.0 }))
    }
}

impl ValuePrefab {
    pub fn get_server_type(&self) -> (r: ServerTypeId)
        ensures
            r == ServerTypeId::SPrefab,
            r == server_type_of(AnyValue::Prefab(*self)),
    {
        ServerTypeId::SPrefab
    }

    pub fn get_client_type(&self) -> (r: ClientTypeId)
        ensures
            r == ClientTypeId::CPrefab,
            r == client_type_of(AnyValue::Prefab(*self)),
    {
        ClientTypeId::CPrefab
    }
    pub fn encode_storage(&self, side: Side) -> (r: Option<Storage>)
        ensures
            leaf_storage_ok(r, AnyValue::Prefab(*self)),
            storage_ok(r, AnyValue::Prefab(*self), side),
    {
        Some(Storage::ValId(Id { value: self.0 }))
    }
}

impl ValueLocalVarRef {
    pub fn get_server_type(&self) -> (r: ServerTypeId)
        ensures
            r == ServerTypeId::SLocalVarRef,
            r == server_type_of(AnyValue::LocalVarRef(*self)),
    {
        ServerTypeId::SLocalVarRef
    }

    pub fn get_client_type(&self) -> (r: ClientTypeId)
        ensures
            r == ClientTypeId::ClientUnknown,
            r == client_type_of(AnyValue::LocalVarRef(*self)),
    {
        ClientTypeId::ClientUnknown
    }
    pub fn encode_storage(&self, side: Side) -> (r: Option<Storage>)
        ensures
            leaf_storage_ok(r, AnyValue::LocalVarRef(*self)),
            storage_ok(r, AnyValue::LocalVarRef(*self), side),
    {
        None
    }
}

impl ValueVarSnapshotRef {
    pub fn get_server_type(&self) -> (r: ServerTypeId)
        ensures
            r == ServerTypeId::SVarSnapshotRef,
            r == server_type_of(AnyValue::VarSnapshotRef(*self)),
    {
        ServerTypeId::SVarSnapshotRef
    }

    pub fn get_client_type(&self) -> (r: ClientTypeId)
        ensures
            r == ClientTypeId::ClientUnknown,
            r == client_type_of(AnyValue::VarSnapshotRef(*self)),
    {
        ClientTypeId::ClientUnknown
    }
    pub fn encode_storage(&self, side: Side) -> (r: Option<Storage>)
        ensures
            leaf_storage_ok(r, AnyValue::VarSnapshotRef(*self)),
            storage_ok(r, AnyValue::VarSnapshotRef(*self), side),
    {
        None
    }
}

impl ValueEntityList {
    pub fn get_server_type(&self) -> (r: ServerTypeId)
        ensures
            r == ServerTypeId::SEntityList,
            r == server_type_of(AnyValue::EntityList(*self)),
    {
        ServerTypeId::SEntityList
    }

    pub fn get_client_type(&self) -> (r: ClientTypeId)
        ensures
            r == ClientTypeId::CEntityList,
            r == client_type_of(AnyValue::EntityList(*self)),
    {
        ClientTypeId::CEntityList
    }
    pub fn encode_storage(&self, side: Side) -> (r: Option<Storage>)
        ensures
            storage_ok(r, AnyValue::EntityList(*self), side),
    {
        let ghost items = list_items(AnyValue::EntityList(*self));
        let mut element: Vec<TypedValue> = Vec::new();
        let n = self.0.len();
        let mut i: usize = 0;
        while i < n
            invariant
                n == self.0@.len(),
                items == list_items(AnyValue::EntityList(*self)),
                items.len() == n,
                i <= n,
                element@.len() == i,
                forall|j: int| 0 <= j < i ==> leaf_typed_ok(#[trigger] element@[j], items[j], Side::Server),
            decreases n - i,
        {
            let item = AnyValue::Entity(ValueEntity);
            assert(item == items[i as int]);
            let tv = scalar_typed(&item, Side::Server);
            element.push(tv);
            i = i + 1;
        }
        Some(Storage::ValList(list_storage(element)))
    }
}

impl ValueGuidList {
    pub fn get_server_type(&self) -> (r: ServerTypeId)
        ensures
            r == ServerTypeId::SGuidList,
            r == server_type_of(AnyValue::GuidList(*self)),
    {
        ServerTypeId::SGuidList
    }

    pub fn get_client_type(&self) -> (r: ClientTypeId)
        ensures
            r == ClientTypeId::CGuidList,
            r == client_type_of(AnyValue::GuidList(*self)),
    {
        ClientTypeId::CGuidList
    }
    pub fn encode_storage(&self, side: Side) -> (r: Option<Storage>)
        ensures
            storage_ok(r, AnyValue::GuidList(*self), side),
    {
        let ghost items = list_items(AnyValue::GuidList(*self));
        let mut element: Vec<TypedValue> = Vec::new();
        let n = self.0.len();
        let mut i: usize = 0;
        while i < n
            invariant
                n == self.0@.len(),
                items == list_items(AnyValue::GuidList(*self)),
                items.len() == n,
                i <= n,
                element@.len() == i,
                forall|j: int| 0 <= j < i ==> leaf_typed_ok(#[trigger] element@[j], items[j], Side::Server),
            decreases n - i,
        {
            let item = AnyValue::Guid(ValueGuid(self.0[i]));
            assert(item == items[i as int]);
            let tv = scalar_typed(&item, Side::Server);
            element.push(tv);
            i = i + 1;
        }
        Some(Storage::ValList(list_storage(element)))
    }
}

impl ValueIntList {
    pub fn get_server_type(&self) -> (r: ServerTypeId)
        ensures
            r == ServerTypeId::SIntList,
            r == server_type_of(AnyValue::IntList(*self)),
    {
        ServerTypeId::SIntList
    }

    pub fn get_client_type(&self) -> (r: ClientTypeId)
        ensures
            r == ClientTypeId::CIntList,
            r == client_type_of(AnyValue::IntList(*self)),
    {
        ClientTypeId::CIntList
    }
    pub fn encode_storage(&self, side: Side) -> (r: Option<Storage>)
        ensures
            storage_ok(r, AnyValue::IntList(*self), side),
    {
        let ghost items = list_items(AnyValue::IntList(*self));
        let mut element: Vec<TypedValue> = Vec::new();
        let n = self.0.len();
        let mut i: usize = 0;
        while i < n
            invariant
                n == self.0@.len(),
                items == list_items(AnyValue::IntList(*self)),
                items.len() == n,
                i <= n,
                element@.len() == i,
                forall|j: int| 0 <= j < i ==> leaf_typed_ok(#[trigger] element@[j], items[j], Side::Server),
            decreases n - i,
        {
            let item = AnyValue::Int(ValueInt(self.0[i]));
            assert(item == items[i as int]);
            let tv = scalar_typed(&item, Side::Server);
            element.push(tv);
            i = i + 1;
        }
        Some(Storage::ValList(list_storage(element)))
    }
}

impl ValueBoolList {
    pub fn get_server_type(&self) -> (r: ServerTypeId)
        ensures
            r == ServerTypeId::SBooleanList,
            r == server_type_of(AnyValue::BoolList(*self)),
    {
        ServerTypeId::SBooleanList
    }

    pub fn get_client_type(&self) -> (r: ClientTypeId)
        ensures
            r == ClientTypeId::CBooleanList,
            r == client_type_of(AnyValue::BoolList(*self)),
    {
        ClientTypeId::CBooleanList
    }
    pub fn encode_storage(&self, side: Side) -> (r: Option<Storage>)
        ensures
            storage_ok(r, AnyValue::BoolList(*self), side),
    {
        let ghost items = list_items(AnyValue::BoolList(*self));
        let mut element: Vec<TypedValue> = Vec::new();
        let n = self.0.len();
        let mut i: usize = 0;
        while i < n
            invariant
                n == self.0@.len(),
                items == list_items(AnyValue::BoolList(*self)),
                items.len() == n,
                i <= n,
                element@.len() == i,
                forall|j: int| 0 <= j < i ==> leaf_typed_ok(#[trigger] element@[j], items[j], Side::Server),
            decreases n - i,
        {
            let item = AnyValue::Bool(ValueBool(self.0[i]));
            assert(item == items[i as int]);
            let tv = scalar_typed(&item, Side::Server);
            element.push(tv);
            i = i + 1;
        }
        Some(Storage::ValList(list_storage(element)))
    }
}

impl ValueStringList {
    pub fn get_server_type(&self) -> (r: ServerTypeId)
        ensures
            r == ServerTypeId::SStringList,
            r == server_type_of(AnyValue::StringList(*self)),
    {
        ServerTypeId::SStringList
    }

    pub fn get_client_type(&self) -> (r: ClientTypeId)
        ensures
            r == ClientTypeId::CStringList,
            r == client_type_of(AnyValue::StringList(*self)),
    {
        ClientTypeId::CStringList
    }
    pub fn encode_storage(&self, side: Side) -> (r: Option<Storage>)
        ensures
            storage_ok(r, AnyValue::StringList(*self), side),
    {
        let ghost items = list_items(AnyValue::StringList(*self));
        let mut element: Vec<TypedValue> = Vec::new();
        let n = self.0.len();
        let mut i: usize = 0;
        while i < n
            invariant
                n == self.0@.len(),
                items == list_items(AnyValue::StringList(*self)),
                items.len() == n,
                i <= n,
                element@.len() == i,
                forall|j: int| 0 <= j < i ==> leaf_typed_ok(#[trigger] element@[j], items[j], Side::Server),
            decreases n - i,
        {
            let item = AnyValue::Str(ValueString(self.0[i].clone()));
            assert(item == items[i as int]);
            let tv = scalar_typed(&item, Side::Server);
            element.push(tv);
            i = i + 1;
        }
        Some(Storage::ValList(list_storage(element)))
    }
}

impl ValueFactionList {
    pub fn get_server_type(&self) -> (r: ServerTypeId)
        ensures
            r == ServerTypeId::SFactionList,
            r == server_type_of(AnyValue::FactionList(*self)),
    {
        ServerTypeId::SFactionList
    }

    pub fn get_client_type(&self) -> (r: ClientTypeId)
        ensures
            r == ClientTypeId::ClientUnknown,
            r == client_type_of(AnyValue::FactionList(*self)),
    {
        ClientTypeId::ClientUnknown
    }
    pub fn encode_storage(&self, side: Side) -> (r: Option<Storage>)
        ensures
            storage_ok(r, AnyValue::FactionList(*self), side),
    {
        let ghost items = list_items(AnyValue::FactionList(*self));
        let mut element: Vec<TypedValue> = Vec::new();
        let n = self.0.len();
        let mut i: usize = 0;
        while i < n
            invariant
                n == self.0@.len(),
                items == list_items(AnyValue::FactionList(*self)),
                items.len() == n,
                i <= n,
                element@.len() == i,
                forall|j: int| 0 <= j < i ==> leaf_typed_ok(#[trigger] element@[j], items[j], Side::Server),
            decreases n - i,
        {
            let item = AnyValue::Faction(ValueFaction(self.0[i]));
            assert(item == items[i as int]);
            let tv = scalar_typed(&item, Side::Server);
            element.push(tv);
            i = i + 1;
        }
        Some(Storage::ValList(list_storage(element)))
    }
}

impl ValueConfigList {
    pub fn get_server_type(&self) -> (r: ServerTypeId)
        ensures
            r == ServerTypeId::SConfigList,
            r == server_type_of(AnyValue::ConfigList(*self)),
    {
        ServerTypeId::SConfigList
    }

    pub fn get_client_type(&self) -> (r: ClientTypeId)
        ensures
            r == ClientTypeId::CConfigList,
            r == client_type_of(AnyValue::ConfigList(*self)),
    {
        ClientTypeId::CConfigList
    }
    pub fn encode_storage(&self, side: Side) -> (r: Option<Storage>)
        ensures
            storage_ok(r, AnyValue::ConfigList(*self), side),
    {
        let ghost items = list_items(AnyValue::ConfigList(*self));
        let mut element: Vec<TypedValue> = Vec::new();
        let n = self.0.len();
        let mut i: usize = 0;
        while i < n
            invariant
                n == self.0@.len(),
                items == list_items(AnyValue::ConfigList(*self)),
                items.len() == n,
                i <= n,
                element@.len() == i,
                forall|j: int| 0 <= j < i ==> leaf_typed_ok(#[trigger] element@[j], items[j], Side::Server),
            decreases n - i,
        {
            let item = AnyValue::Config(ValueConfig(self.0[i]));
            assert(item == items[i as int]);
            let tv = scalar_typed(&item, Side::Server);
            element.push(tv);
            i = i + 1;
        }
        Some(Storage::ValList(list_storage(element)))
    }
}

impl ValuePrefabList {
    pub fn get_server_type(&self) -> (r: ServerTypeId)
        ensures
            r == ServerTypeId::SPrefabList,
            r == server_type_of(AnyValue::PrefabList(*self)),
    {
        ServerTypeId::SPrefabList
    }

    pub fn get_client_type(&self) -> (r: ClientTypeId)
        ensures
            r == ClientTypeId::ClientUnknown,
            r == client_type_of(AnyValue::PrefabList(*self)),
    {
        ClientTypeId::ClientUnknown
    }
    pub fn encode_storage(&self, side: Side) -> (r: Option<Storage>)
        ensures
            storage_ok(r, AnyValue::PrefabList(*self), side),
    {
        let ghost items = list_items(AnyValue::PrefabList(*self));
        let mut element: Vec<TypedValue> = Vec::new();
        let n = self.0.len();
        let mut i: usize = 0;
        while i < n
            invariant
                n == self.0@.len(),
                items == list_items(AnyValue::PrefabList(*self)),
                items.len() == n,
                i <= n,
                element@.len() == i,
                forall|j: int| 0 <= j < i ==> leaf_typed_ok(#[trigger] element@[j], items[j], Side::Server),
            decreases n - i,
        {
            let item = AnyValue::Prefab(ValuePrefab(self.0[i]));
            assert(item == items[i as int]);
            let tv = scalar_typed(&item, Side::Server);
            element.push(tv);
            i = i + 1;
        }
        Some(Storage::ValList(list_storage(element)))
    }
}

impl ValueDict {
    pub fn get_server_type(&self) -> (r: ServerTypeId)
        ensures
            r == ServerTypeId::SDict,
            r == server_type_of(AnyValue::Dict(Box::new(*self))),
    {
        ServerTypeId::SDict
    }

    pub fn get_client_type(&self) -> (r: ClientTypeId)
        ensures
            r == ClientTypeId::ClientUnknown,
            r == client_type_of(AnyValue::Dict(Box::new(*self))),
    {
        ClientTypeId::ClientUnknown
    }
}

impl ValueStruct {
    pub fn get_server_type(&self) -> (r: ServerTypeId)
        ensures
            r == ServerTypeId::SStruct,
            r == server_type_of(AnyValue::Struct(*self)),
    {
        ServerTypeId::SStruct
    }

    pub fn get_client_type(&self) -> (r: ClientTypeId)
        ensures
            r == ClientTypeId::ClientUnknown,
            r == client_type_of(AnyValue::Struct(*self)),
    {
        ClientTypeId::ClientUnknown
    }
}

impl ValueIrNever {
    pub fn get_server_type(&self) -> (r: ServerTypeId)
        ensures
            r == ServerTypeId::ServerUnknown,
            r == server_type_of(AnyValue::IrNever(*self)),
    {
        ServerTypeId::ServerUnknown
    }

    pub fn get_client_type(&self) -> (r: ClientTypeId)
        ensures
            r == ClientTypeId::ClientUnknown,
            r == client_type_of(AnyValue::IrNever(*self)),
    {
        ClientTypeId::ClientUnknown
    }
}

impl ValueIrAdt {
    pub fn get_server_type(&self) -> (r: ServerTypeId)
        ensures
            r == ServerTypeId::ServerUnknown,
            r == server_type_of(AnyValue::IrAdt(*self)),
    {
        ServerTypeId::ServerUnknown
    }

    pub fn get_client_type(&self) -> (r: ClientTypeId)
        ensures
            r == ClientTypeId::ClientUnknown,
            r == client_type_of(AnyValue::IrAdt(*self)),
    {
        ClientTypeId::ClientUnknown
    }
}


/// A value without nested values.
pub open spec fn is_scalar(v: AnyValue) -> bool {
    match v {
        AnyValue::Bool(_) | AnyValue::Int(_) | AnyValue::Str(_) | AnyValue::Float(_)
        | AnyValue::Vec3(_) | AnyValue::Guid(_)
        | AnyValue::Entity(_) | AnyValue::Enum(_) | AnyValue::Faction(_) | AnyValue::Config(_)
        | AnyValue::Prefab(_) | AnyValue::LocalVarRef(_) | AnyValue::VarSnapshotRef(_) => true,
        _ => false,
    }
}

/// The set encoding of a value without nested values.
fn scalar_typed(v: &AnyValue, side: Side) -> (r: TypedValue)
    requires
        is_scalar(*v),
    ensures
        leaf_typed_ok(r, *v, side),
        typed_ok(r, *v, true, side),
{
    let storage = match v {
        AnyValue::Bool(x) => x.encode_storage(side),
        AnyValue::Int(x) => x.encode_storage(side),
        AnyValue::Str(x) => x.encode_storage(side),
        AnyValue::Float(x) => x.encode_storage(side),
        AnyValue::Vec3(x) => x.encode_storage(side),
        AnyValue::Guid(x) => x.encode_storage(side),
        AnyValue::Entity(x) => x.encode_storage(side),
        AnyValue::Enum(x) => x.encode_storage(side),
        AnyValue::Faction(x) => x.encode_storage(side),
        AnyValue::Config(x) => x.encode_storage(side),
        AnyValue::Prefab(x) => x.encode_storage(side),
        AnyValue::LocalVarRef(x) => x.encode_storage(side),
        AnyValue::VarSnapshotRef(x) => x.encode_storage(side),
        _ => None,
    };
    TypedValue {
        widget: v.get_widget_type(),
        is_set: true,
        type_def: Some(TypeDefinition { backend: backend(side), type_detail: Some(v.encode_type(side)) }),
        storage,
    }
}

pub(crate) fn backend(side: Side) -> (r: Backend)
    ensures
        r == backend_of(side),
{
    match side {
        Side::Server => Backend::Server,
        Side::Client => Backend::Client,
    }
}

impl ValueFloat {
    pub fn encode(&self) -> (r: Flt)
        ensures
            r.value == self.0,
    {
        Flt { value: self.0 }
    }

    pub fn get_server_type(&self) -> (r: ServerTypeId)
        ensures
            r == ServerTypeId::SFloat,
            r == server_type_of(AnyValue::Float(*self)),
    {
        ServerTypeId::SFloat
    }

    pub fn get_client_type(&self) -> (r: ClientTypeId)
        ensures
            r == ClientTypeId::CFloat,
            r == client_type_of(AnyValue::Float(*self)),
    {
        ClientTypeId::CFloat
    }

    pub fn encode_storage(&self, side: Side) -> (r: Option<Storage>)
        ensures
            leaf_storage_ok(r, AnyValue::Float(*self)),
            storage_ok(r, AnyValue::Float(*self), side),
    {
        Some(Storage::ValFloat(self.encode()))
    }
}

impl ValueVec3 {
    pub fn encode(&self) -> (r: Vec3f)
        ensures
            r == (Vec3f { x: self.x, y: self.y, z: self.z }),
    {
        Vec3f { x: self.x, y: self.y, z: self.z }
    }

    pub fn get_server_type(&self) -> (r: ServerTypeId)
        ensures
            r == ServerTypeId::SVector,
            r == server_type_of(AnyValue::Vec3(*self)),
    {
        ServerTypeId::SVector
    }

    pub fn get_client_type(&self) -> (r: ClientTypeId)
        ensures
            r == ClientTypeId::CVector,
            r == client_type_of(AnyValue::Vec3(*self)),
    {
        ClientTypeId::CVector
    }

    pub fn encode_storage(&self, side: Side) -> (r: Option<Storage>)
        ensures
            leaf_storage_ok(r, AnyValue::Vec3(*self)),
            storage_ok(r, AnyValue::Vec3(*self), side),
    {
        Some(Storage::ValVector(self.encode()))
    }
}

impl ValueFloatList {
    pub fn get_server_type(&self) -> (r: ServerTypeId)
        ensures
            r == ServerTypeId::SFloatList,
            r == server_type_of(AnyValue::FloatList(*self)),
    {
        ServerTypeId::SFloatList
    }

    pub fn get_client_type(&self) -> (r: ClientTypeId)
        ensures
            r == ClientTypeId::CFloatList,
            r == client_type_of(AnyValue::FloatList(*self)),
    {
        ClientTypeId::CFloatList
    }

    pub fn encode_storage(&self, side: Side) -> (r: Option<Storage>)
        ensures
            storage_ok(r, AnyValue::FloatList(*self), side),
    {
        let ghost items = list_items(AnyValue::FloatList(*self));
        let mut element: Vec<TypedValue> = Vec::new();
        let n = self.0.len();
        let mut i: usize = 0;
        while i < n
            invariant
                n == self.0@.len(),
                items == list_items(AnyValue::FloatList(*self)),
                items.len() == n,
                i <= n,
                element@.len() == i,
                forall|j: int| 0 <= j < i ==> leaf_typed_ok(#[trigger] element@[j], items[j], Side::Server),
            decreases n - i,
        {
            let item = AnyValue::Float(ValueFloat(self.0[i]));
            assert(item == items[i as int]);
            let tv = scalar_typed(&item, Side::Server);
            element.push(tv);
            i = i + 1;
        }
        Some(Storage::ValList(list_storage(element)))
    }
}

impl ValueVectorList {
    pub fn get_server_type(&self) -> (r: ServerTypeId)
        ensures
            r == ServerTypeId::SVectorList,
            r == server_type_of(AnyValue::VectorList(*self)),
    {
        ServerTypeId::SVectorList
    }

    pub fn get_client_type(&self) -> (r: ClientTypeId)
        ensures
            r == ClientTypeId::CVectorList,
            r == client_type_of(AnyValue::VectorList(*self)),
    {
        ClientTypeId::CVectorList
    }

    pub fn encode_storage(&self, side: Side) -> (r: Option<Storage>)
        ensures
            storage_ok(r, AnyValue::VectorList(*self), side),
    {
        let ghost items = list_items(AnyValue::VectorList(*self));
        let mut element: Vec<TypedValue> = Vec::new();
        let n = self.0.len();
        let mut i: usize = 0;
        while i < n
            invariant
                n == self.0@.len(),
                items == list_items(AnyValue::VectorList(*self)),
                items.len() == n,
                i <= n,
                element@.len() == i,
                forall|j: int| 0 <= j < i ==> leaf_typed_ok(#[trigger] element@[j], items[j], Side::Server),
            decreases n - i,
        {
            let (x, y, z) = self.0[i];
            let item = AnyValue::Vec3(ValueVec3 { x, y, z });
            assert(item == items[i as int]);
            let tv = scalar_typed(&item, Side::Server);
            element.push(tv);
            i = i + 1;
        }
        Some(Storage::ValList(list_storage(element)))
    }
}

impl ValueEnumList {
    pub fn get_server_type(&self) -> (r: ServerTypeId)
        ensures
            r == ServerTypeId::SEnumList,
            r == server_type_of(AnyValue::EnumList(*self)),
    {
        ServerTypeId::SEnumList
    }

    pub fn get_client_type(&self) -> (r: ClientTypeId)
        ensures
            r == ClientTypeId::CEnumList,
            r == client_type_of(AnyValue::EnumList(*self)),
    {
        ClientTypeId::CEnumList
    }

    pub fn encode_storage(&self, side: Side) -> (r: Option<Storage>)
        ensures
            storage_ok(r, AnyValue::EnumList(*self), side),
    {
        let mut element: Vec<TypedValue> = Vec::new();
        let n = self.0.len();
        let mut i: usize = 0;
        while i < n
            invariant
                n == self.0@.len(),
                i <= n,
                element@.len() == i,
                forall|j: int|
                    0 <= j < i ==> leaf_typed_ok(
                        #[trigger] element@[j],
                        AnyValue::Enum(self.0@[j]),
                        side,
                    ),
            decreases n - i,
        {
            let item = AnyValue::Enum(self.0[i]);
            let tv = scalar_typed(&item, side);
            element.push(tv);
            i = i + 1;
        }
        Some(Storage::ValList(list_storage(element)))
    }
}

impl ValueDict {
    /// The pairs of the dictionary, each key and value encoded and set.
    pub fn encode_storage(&self, side: Side) -> (r: Option<Storage>)
        requires
            forall|i: int|
                #![trigger self.data@[i]]
                0 <= i < self.data@.len() ==> encodable(self.data@[i].0) && encodable(
                    self.data@[i].1,
                ),
        ensures
            storage_ok(r, AnyValue::Dict(Box::new(*self)), side),
        decreases *self, 2int,
    {
        let mut pairs: Vec<TypedValue> = Vec::new();
        let n = self.data.len();
        let mut i: usize = 0;
        while i < n
            invariant
                n == self.data@.len(),
                i <= n,
                pairs@.len() == i,
                forall|k: int|
                    #![trigger self.data@[k]]
                    0 <= k < self.data@.len() ==> encodable(self.data@[k].0) && encodable(
                        self.data@[k].1,
                    ),
                forall|j: int|
                    0 <= j < i ==> {
                        let tv = #[trigger] pairs@[j];
                        &&& tv.widget == WidgetType::MapPairItem
                        &&& tv.is_set
                        &&& tv.type_def is None
                        &&& match tv.storage {
                            Some(Storage::ValPair(p)) => {
                                &&& p.key matches Some(k) && typed_ok(
                                    *k,
                                    self.data@[j].0,
                                    true,
                                    side,
                                )
                                &&& p.value matches Some(x) && typed_ok(
                                    *x,
                                    self.data@[j].1,
                                    true,
                                    side,
                                )
                            },
                            _ => false,
                        }
                    },
            decreases n - i,
        {
            proof {
                vstd::std_specs::vec::axiom_vec_index_decreases(self.data, i as int);
                assert(encodable(self.data@[i as int].0));
            }
            let key = self.data[i].0.encode_typed(true, side);
            let value = self.data[i].1.encode_typed(true, side);
            let tv = TypedValue {
                widget: WidgetType::MapPairItem,
                is_set: true,
                type_def: None,
                storage: Some(
                    Storage::ValPair(
                        Box::new(MapPairStorage { key: Some(Box::new(key)), value: Some(Box::new(value)) }),
                    ),
                ),
            };
            let ghost before = pairs@;
            pairs.push(tv);
            assert(forall|j: int| 0 <= j < i ==> pairs@[j] == before[j]);
            i = i + 1;
        }
        Some(Storage::ValMap(MapStorage { pairs }))
    }
}

impl ValueStruct {
    /// The field values of the structure, in order, each encoded and set.
    pub fn encode_storage(&self, side: Side) -> (r: Option<Storage>)
        requires
            forall|i: int| #![trigger self.fields@[i]] 0 <= i < self.fields@.len() ==> encodable(self.fields@[i]),
        ensures
            storage_ok(r, AnyValue::Struct(*self), side),
        decreases *self, 2int,
    {
        let mut field: Vec<TypedValue> = Vec::new();
        let n = self.fields.len();
        let mut i: usize = 0;
        while i < n
            invariant
                n == self.fields@.len(),
                i <= n,
                field@.len() == i,
                forall|k: int| #![trigger self.fields@[k]] 0 <= k < self.fields@.len() ==> encodable(self.fields@[k]),
                forall|j: int|
                    0 <= j < i ==> typed_ok(#[trigger] field@[j], self.fields@[j], true, side),
            decreases n - i,
        {
            proof {
                vstd::std_specs::vec::axiom_vec_index_decreases(self.fields, i as int);
                assert(encodable(self.fields@[i as int]));
            }
            let tv = self.fields[i].encode_typed(true, side);
            let ghost before = field@;
            field.push(tv);
            assert(forall|j: int| 0 <= j < i ==> field@[j] == before[j]);
            i = i + 1;
        }
        Some(Storage::ValStruct(StructStorage { field }))
    }

    pub fn get_struct_id(&self) -> (r: i64)
        ensures
            r == self.struct_id,
    {
        self.struct_id
    }
}

impl AnyValue {
    pub fn get_server_type(&self) -> (r: ServerTypeId)
        ensures
            r == server_type_of(*self),
    {
        match self {
            AnyValue::Bool(x) => x.get_server_type(),
            AnyValue::Int(x) => x.get_server_type(),
            AnyValue::Str(x) => x.get_server_type(),
            AnyValue::Float(x) => x.get_server_type(),
            AnyValue::Vec3(x) => x.get_server_type(),
            AnyValue::FloatList(x) => x.get_server_type(),
            AnyValue::VectorList(x) => x.get_server_type(),
            AnyValue::Guid(x) => x.get_server_type(),
            AnyValue::Entity(x) => x.get_server_type(),
            AnyValue::Enum(x) => x.get_server_type(),
            AnyValue::Faction(x) => x.get_server_type(),
            AnyValue::Config(x) => x.get_server_type(),
            AnyValue::Prefab(x) => x.get_server_type(),
            AnyValue::LocalVarRef(x) => x.get_server_type(),
            AnyValue::VarSnapshotRef(x) => x.get_server_type(),
            AnyValue::EntityList(x) => x.get_server_type(),
            AnyValue::GuidList(x) => x.get_server_type(),
            AnyValue::IntList(x) => x.get_server_type(),
            AnyValue::BoolList(x) => x.get_server_type(),
            AnyValue::StringList(x) => x.get_server_type(),
            AnyValue::EnumList(x) => x.get_server_type(),
            AnyValue::FactionList(x) => x.get_server_type(),
            AnyValue::ConfigList(x) => x.get_server_type(),
            AnyValue::PrefabList(x) => x.get_server_type(),
            AnyValue::Dict(x) => x.get_server_type(),
            AnyValue::Struct(x) => x.get_server_type(),
            AnyValue::IrNever(x) => x.get_server_type(),
            AnyValue::IrAdt(x) => x.get_server_type(),
        }
    }

    pub fn get_client_type(&self) -> (r: ClientTypeId)
        ensures
            r == client_type_of(*self),
    {
        match self {
            AnyValue::Bool(x) => x.get_client_type(),
            AnyValue::Int(x) => x.get_client_type(),
            AnyValue::Str(x) => x.get_client_type(),
            AnyValue::Float(x) => x.get_client_type(),
            AnyValue::Vec3(x) => x.get_client_type(),
            AnyValue::FloatList(x) => x.get_client_type(),
            AnyValue::VectorList(x) => x.get_client_type(),
            AnyValue::Guid(x) => x.get_client_type(),
            AnyValue::Entity(x) => x.get_client_type(),
            AnyValue::Enum(x) => x.get_client_type(),
            AnyValue::Faction(x) => x.get_client_type(),
            AnyValue::Config(x) => x.get_client_type(),
            AnyValue::Prefab(x) => x.get_client_type(),
            AnyValue::LocalVarRef(x) => x.get_client_type(),
            AnyValue::VarSnapshotRef(x) => x.get_client_type(),
            AnyValue::EntityList(x) => x.get_client_type(),
            AnyValue::GuidList(x) => x.get_client_type(),
            AnyValue::IntList(x) => x.get_client_type(),
            AnyValue::BoolList(x) => x.get_client_type(),
            AnyValue::StringList(x) => x.get_client_type(),
            AnyValue::EnumList(x) => x.get_client_type(),
            AnyValue::FactionList(x) => x.get_client_type(),
            AnyValue::ConfigList(x) => x.get_client_type(),
            AnyValue::PrefabList(x) => x.get_client_type(),
            AnyValue::Dict(x) => x.get_client_type(),
            AnyValue::Struct(x) => x.get_client_type(),
            AnyValue::IrNever(x) => x.get_client_type(),
            AnyValue::IrAdt(x) => x.get_client_type(),
        }
    }

    /// The widget that shows the value: it follows the server type.
    pub fn get_widget_type(&self) -> (r: WidgetType)
        ensures
            r == widget_of(server_type_of(*self)),
    {
        match self.get_server_type() {
            ServerTypeId::SInt => WidgetType::NumberInput,
            ServerTypeId::SFloat => WidgetType::DecimalInput,
            ServerTypeId::SString => WidgetType::TextInput,
            ServerTypeId::SBoolean | ServerTypeId::SEnumItem => WidgetType::EnumPicker,
            ServerTypeId::SGuid | ServerTypeId::SEntity | ServerTypeId::SFaction
            | ServerTypeId::SConfig | ServerTypeId::SPrefab | ServerTypeId::SLocalVarRef
            | ServerTypeId::SVarSnapshotRef => WidgetType::IdInput,
            ServerTypeId::SVector => WidgetType::VectorGroup,
            ServerTypeId::SGuidList | ServerTypeId::SIntList | ServerTypeId::SBooleanList
            | ServerTypeId::SFloatList | ServerTypeId::SStringList | ServerTypeId::SEntityList
            | ServerTypeId::SVectorList | ServerTypeId::SEnumList | ServerTypeId::SFactionList
            | ServerTypeId::SConfigList | ServerTypeId::SPrefabList
            | ServerTypeId::SStructList => WidgetType::ListGroup,
            ServerTypeId::SStruct => WidgetType::StructBlock,
            ServerTypeId::SDict => WidgetType::MapGroup,
            _ => WidgetType::Unknown,
        }
    }

    /// The wire number of the value's type on `side`.
    pub fn get_type_id(&self, side: Side) -> (r: i32)
        ensures
            r == (match side {
                Side::Server => server_type_of(*self).spec_code(),
                Side::Client => client_type_of(*self).spec_code(),
            }),
    {
        match side {
            Side::Server => self.get_server_type().code(),
            Side::Client => self.get_client_type().code(),
        }
    }

    /// The schema id if the value is a structure.
    fn struct_id(&self) -> (r: Option<i64>)
        ensures
            r == struct_id_of(*self),
    {
        match self {
            AnyValue::Struct(s) => Some(s.get_struct_id()),
            _ => None,
        }
    }

    pub fn encode_schema(&self) -> (r: Option<Schema>)
        ensures
            r == schema_of(*self),
    {
        match self {
            AnyValue::Dict(d) => Some(
                Schema::MapBinding(
                    MapKeyValueBinding {
                        key_type: d.key_type.get_server_type().code(),
                        value_type: d.value_type.get_server_type().code(),
                        value_struct_id: d.value_type.struct_id(),
                    },
                ),
            ),
            AnyValue::Struct(s) => Some(
                Schema::StructRef(StructReference { schema_id: s.get_struct_id() }),
            ),
            _ => None,
        }
    }

    pub fn encode_type_detail(&self) -> (r: Option<TypeInfoDetail>)
        ensures
            r == info_detail_of(*self),
    {
        match self {
            AnyValue::Bool(_) => Some(TypeInfoDetail::EnumId(1)),
            AnyValue::Enum(e) => Some(TypeInfoDetail::EnumId(e.id)),
            AnyValue::Dict(d) => Some(
                TypeInfoDetail::MapType {
                    key: d.key_type.get_server_type().code(),
                    value: d.value_type.get_server_type().code(),
                    value_id: d.value_type.struct_id(),
                    unknown: 1,
                    unknown1: 1,
                },
            ),
            AnyValue::Struct(s) => Some(TypeInfoDetail::StructId(s.get_struct_id())),
            _ => None,
        }
    }

    pub fn encode_type(&self, side: Side) -> (r: TypeDetail)
        ensures
            r == type_detail_of(*self, side),
    {
        match side {
            Side::Server => TypeDetail::ServerSide(
                ServerType {
                    type_tag: self.get_server_type().code(),
                    implementation: 0,
                    schema: self.encode_schema(),
                },
            ),
            Side::Client => TypeDetail::ClientSide(
                ClientType { type_tag: self.get_client_type().code() },
            ),
        }
    }

    /// The value with its type and widget; its content only when set.
    pub fn encode_typed(&self, is_set: bool, side: Side) -> (r: TypedValue)
        requires
            is_set ==> encodable(*self),
        ensures
            typed_ok(r, *self, is_set, side),
        decreases *self, 1int,
    {
        let storage = if is_set {
            self.encode_storage(side)
        } else {
            None
        };
        TypedValue {
            widget: self.get_widget_type(),
            is_set,
            type_def: Some(
                TypeDefinition { backend: backend(side), type_detail: Some(self.encode_type(side)) },
            ),
            storage,
        }
    }

    /// The content of the value.
    pub fn encode_storage(&self, side: Side) -> (r: Option<Storage>)
        requires
            encodable(*self),
        ensures
            storage_ok(r, *self, side),
        decreases *self, 0int,
    {
        match self {
            AnyValue::Bool(x) => x.encode_storage(side),
            AnyValue::Int(x) => x.encode_storage(side),
            AnyValue::Str(x) => x.encode_storage(side),
            AnyValue::Float(x) => x.encode_storage(side),
            AnyValue::Vec3(x) => x.encode_storage(side),
            AnyValue::FloatList(x) => x.encode_storage(side),
            AnyValue::VectorList(x) => x.encode_storage(side),
            AnyValue::Guid(x) => x.encode_storage(side),
            AnyValue::Entity(x) => x.encode_storage(side),
            AnyValue::Enum(x) => x.encode_storage(side),
            AnyValue::Faction(x) => x.encode_storage(side),
            AnyValue::Config(x) => x.encode_storage(side),
            AnyValue::Prefab(x) => x.encode_storage(side),
            AnyValue::LocalVarRef(x) => x.encode_storage(side),
            AnyValue::VarSnapshotRef(x) => x.encode_storage(side),
            AnyValue::EntityList(x) => x.encode_storage(side),
            AnyValue::GuidList(x) => x.encode_storage(side),
            AnyValue::IntList(x) => x.encode_storage(side),
            AnyValue::BoolList(x) => x.encode_storage(side),
            AnyValue::StringList(x) => x.encode_storage(side),
            AnyValue::EnumList(x) => x.encode_storage(side),
            AnyValue::FactionList(x) => x.encode_storage(side),
            AnyValue::ConfigList(x) => x.encode_storage(side),
            AnyValue::PrefabList(x) => x.encode_storage(side),
            AnyValue::Dict(x) => {
                proof {
                    assert(decreases_to!(*self => self->Dict_0));
                }
                x.encode_storage(side)
            },
            AnyValue::Struct(x) => {
                proof {
                    assert(decreases_to!(*self => self->Struct_0));
                }
                x.encode_storage(side)
            },
            AnyValue::IrNever(_) => None,
            AnyValue::IrAdt(_) => None,
        }
    }

    /// Whether a value of this type accepts `value`.
    pub fn is_instance(&self, value: &AnyValue) -> (r: bool)
        ensures
            r == instance_of(*self, *value),
        decreases *self,
    {
        match self {
            AnyValue::Enum(e) => match value {
                AnyValue::Enum(o) => o.id == e.id,
                _ => false,
            },
            AnyValue::Dict(d) => match value {
                AnyValue::Dict(o) => {
                    proof {
                        assert(decreases_to!(*self => self->Dict_0));
                    }
                    d.key_type.is_instance(&o.key_type) && d.value_type.is_instance(&o.value_type)
                },
                _ => false,
            },
            AnyValue::Struct(s) => match value {
                AnyValue::Struct(o) => o.struct_id == s.struct_id,
                _ => false,
            },
            AnyValue::IrAdt(n) => match value {
                AnyValue::IrAdt(o) => o.0 == n.0,
                AnyValue::Struct(_) => true,
                AnyValue::Int(_) => true,
                _ => false,
            },
            _ => self.same_kind(value),
        }
    }

    fn same_kind(&self, other: &AnyValue) -> (r: bool)
        ensures
            r == same_kind(*self, *other),
    {
        match (self, other) {
            (AnyValue::Bool(_), AnyValue::Bool(_)) => true,
            (AnyValue::Int(_), AnyValue::Int(_)) => true,
            (AnyValue::Str(_), AnyValue::Str(_)) => true,
            (AnyValue::Float(_), AnyValue::Float(_)) => true,
            (AnyValue::Vec3(_), AnyValue::Vec3(_)) => true,
            (AnyValue::Guid(_), AnyValue::Guid(_)) => true,
            (AnyValue::Entity(_), AnyValue::Entity(_)) => true,
            (AnyValue::Enum(_), AnyValue::Enum(_)) => true,
            (AnyValue::Faction(_), AnyValue::Faction(_)) => true,
            (AnyValue::Config(_), AnyValue::Config(_)) => true,
            (AnyValue::Prefab(_), AnyValue::Prefab(_)) => true,
            (AnyValue::LocalVarRef(_), AnyValue::LocalVarRef(_)) => true,
            (AnyValue::VarSnapshotRef(_), AnyValue::VarSnapshotRef(_)) => true,
            (AnyValue::EntityList(_), AnyValue::EntityList(_)) => true,
            (AnyValue::GuidList(_), AnyValue::GuidList(_)) => true,
            (AnyValue::IntList(_), AnyValue::IntList(_)) => true,
            (AnyValue::BoolList(_), AnyValue::BoolList(_)) => true,
            (AnyValue::FloatList(_), AnyValue::FloatList(_)) => true,
            (AnyValue::StringList(_), AnyValue::StringList(_)) => true,
            (AnyValue::VectorList(_), AnyValue::VectorList(_)) => true,
            (AnyValue::EnumList(_), AnyValue::EnumList(_)) => true,
            (AnyValue::FactionList(_), AnyValue::FactionList(_)) => true,
            (AnyValue::ConfigList(_), AnyValue::ConfigList(_)) => true,
            (AnyValue::PrefabList(_), AnyValue::PrefabList(_)) => true,
            (AnyValue::Dict(_), AnyValue::Dict(_)) => true,
            (AnyValue::Struct(_), AnyValue::Struct(_)) => true,
            (AnyValue::IrNever(_), AnyValue::IrNever(_)) => true,
            (AnyValue::IrAdt(_), AnyValue::IrAdt(_)) => true,
            _ => false,
        }
    }
}


/// Numbers are edited with number widgets of their own: every integer with
/// the whole-number input, every float with the decimal input, so an
/// integer and a float never share a widget.
pub proof fn lemma_number_widgets(i: ValueInt, f: ValueFloat)
    ensures
        widget_of(server_type_of(AnyValue::Int(i))) == WidgetType::NumberInput,
        widget_of(server_type_of(AnyValue::Float(f))) == WidgetType::DecimalInput,
        widget_of(server_type_of(AnyValue::Int(i))) != widget_of(server_type_of(AnyValue::Float(f))),
{
}

} // verus!
