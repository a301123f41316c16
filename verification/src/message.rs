//! The message tree of the asset format: the typed values, type definitions
//! and storages that an encoded value is made of.

use vstd::prelude::*;

use crate::ids::Identifier;

verus! {

/// Type of a value on the server side, as the asset format tags it.
#[derive(Clone, Copy, Debug, PartialEq, Eq, Structural)]
pub enum ServerTypeId {
    ServerUnknown,
    SEntity,
    SGuid,
    SInt,
    SBoolean,
    SFloat,
    SString,
    SGuidList,
    SIntList,
    SBooleanList,
    SFloatList,
    SStringList,
    SVector,
    SEntityList,
    SEnumItem,
    SVectorList,
    SLocalVarRef,
    SFaction,
    SEnumList,
    SConfig,
    SPrefab,
    SConfigList,
    SPrefabList,
    SFactionList,
    SStruct,
    SStructList,
    SDict,
    SVarSnapshotRef,
}

impl ServerTypeId {
    /// The number that stands for the type on the wire.
    pub open spec fn spec_code(self) -> i32 {
        match self {
            ServerTypeId::ServerUnknown => 0,
            ServerTypeId::SEntity => 1,
            ServerTypeId::SGuid => 2,
            ServerTypeId::SInt => 3,
            ServerTypeId::SBoolean => 4,
            ServerTypeId::SFloat => 5,
            ServerTypeId::SString => 6,
            ServerTypeId::SGuidList => 7,
            ServerTypeId::SIntList => 8,
            ServerTypeId::SBooleanList => 9,
            ServerTypeId::SFloatList => 10,
            ServerTypeId::SStringList => 11,
            ServerTypeId::SVector => 12,
            ServerTypeId::SEntityList => 13,
            ServerTypeId::SEnumItem => 14,
            ServerTypeId::SVectorList => 15,
            ServerTypeId::SLocalVarRef => 16,
            ServerTypeId::SFaction => 17,
            ServerTypeId::SEnumList => 18,
            ServerTypeId::SConfig => 20,
            ServerTypeId::SPrefab => 21,
            ServerTypeId::SConfigList => 22,
            ServerTypeId::SPrefabList => 23,
            ServerTypeId::SFactionList => 24,
            ServerTypeId::SStruct => 25,
            ServerTypeId::SStructList => 26,
            ServerTypeId::SDict => 27,
            ServerTypeId::SVarSnapshotRef => 28,
        }
    }

    pub fn code(&self) -> (r: i32)
        ensures
            r == self.spec_code(),
    {
        match self {
            ServerTypeId::ServerUnknown => 0,
            ServerTypeId::SEntity => 1,
            ServerTypeId::SGuid => 2,
            ServerTypeId::SInt => 3,
            ServerTypeId::SBoolean => 4,
            ServerTypeId::SFloat => 5,
            ServerTypeId::SString => 6,
            ServerTypeId::SGuidList => 7,
            ServerTypeId::SIntList => 8,
            ServerTypeId::SBooleanList => 9,
            ServerTypeId::SFloatList => 10,
            ServerTypeId::SStringList => 11,
            ServerTypeId::SVector => 12,
            ServerTypeId::SEntityList => 13,
            ServerTypeId::SEnumItem => 14,
            ServerTypeId::SVectorList => 15,
            ServerTypeId::SLocalVarRef => 16,
            ServerTypeId::SFaction => 17,
            ServerTypeId::SEnumList => 18,
            ServerTypeId::SConfig => 20,
            ServerTypeId::SPrefab => 21,
            ServerTypeId::SConfigList => 22,
            ServerTypeId::SPrefabList => 23,
            ServerTypeId::SFactionList => 24,
            ServerTypeId::SStruct => 25,
            ServerTypeId::SStructList => 26,
            ServerTypeId::SDict => 27,
            ServerTypeId::SVarSnapshotRef => 28,
        }
    }
}

/// Type of a value on the client side, as the asset format tags it.
#[derive(Clone, Copy, Debug, PartialEq, Eq, Structural)]
pub enum ClientTypeId {
    ClientUnknown,
    CEntity,
    CEntityList,
    CInt,
    CIntList,
    CBoolean,
    CBooleanList,
    CFloat,
    CFloatList,
    CString,
    CStringList,
    CVector,
    CVectorList,
    CEnumItem,
    CGuid,
    CGuidList,
    CFaction,
    CEnumList,
    CConfig,
    CPrefab,
    CConfigList,
}

impl ClientTypeId {
    /// The number that stands for the type on the wire.
    pub open spec fn spec_code(self) -> i32 {
        match self {
            ClientTypeId::ClientUnknown => 0,
            ClientTypeId::CEntity => 1,
            ClientTypeId::CEntityList => 2,
            ClientTypeId::CInt => 3,
            ClientTypeId::CIntList => 4,
            ClientTypeId::CBoolean => 5,
            ClientTypeId::CBooleanList => 6,
            ClientTypeId::CFloat => 7,
            ClientTypeId::CFloatList => 8,
            ClientTypeId::CString => 9,
            ClientTypeId::CStringList => 10,
            ClientTypeId::CVector => 11,
            ClientTypeId::CVectorList => 12,
            ClientTypeId::CEnumItem => 13,
            ClientTypeId::CGuid => 14,
            ClientTypeId::CGuidList => 15,
            ClientTypeId::CFaction => 16,
            ClientTypeId::CEnumList => 17,
            ClientTypeId::CConfig => 18,
            ClientTypeId::CPrefab => 19,
            ClientTypeId::CConfigList => 20,
        }
    }

    pub fn code(&self) -> (r: i32)
        ensures
            r == self.spec_code(),
    {
        match self {
            ClientTypeId::ClientUnknown => 0,
            ClientTypeId::CEntity => 1,
            ClientTypeId::CEntityList => 2,
            ClientTypeId::CInt => 3,
            ClientTypeId::CIntList => 4,
            ClientTypeId::CBoolean => 5,
            ClientTypeId::CBooleanList => 6,
            ClientTypeId::CFloat => 7,
            ClientTypeId::CFloatList => 8,
            ClientTypeId::CString => 9,
            ClientTypeId::CStringList => 10,
            ClientTypeId::CVector => 11,
            ClientTypeId::CVectorList => 12,
            ClientTypeId::CEnumItem => 13,
            ClientTypeId::CGuid => 14,
            ClientTypeId::CGuidList => 15,
            ClientTypeId::CFaction => 16,
            ClientTypeId::CEnumList => 17,
            ClientTypeId::CConfig => 18,
            ClientTypeId::CPrefab => 19,
            ClientTypeId::CConfigList => 20,
        }
    }
}

/// How the editor shows a value.
#[derive(Clone, Copy, Debug, PartialEq, Eq, Structural)]
pub enum WidgetType {
    Unknown,
    NumberInput,
    DecimalInput,
    TextInput,
    EnumPicker,
    IdInput,
    VectorGroup,
    ListGroup,
    StructBlock,
    MapGroup,
    MapPairItem,
    TypeSelector,
}

/// Which half of the game a type definition is written for.
#[derive(Clone, Copy, Debug, PartialEq, Eq, Structural)]
pub enum Backend {
    Server,
    Client,
}

#[derive(Clone, Copy, Debug, PartialEq, Eq, Structural)]
pub struct Enum {
    pub value: i64,
}

#[derive(Clone, Copy, Debug, PartialEq, Eq, Structural)]
pub struct Int {
    pub value: i32,
}

/// A single-precision number, by the bits of its IEEE 754 form.
#[derive(Clone, Copy, Debug, PartialEq, Eq, Structural)]
pub struct Flt {
    pub value: u32,
}

/// A vector of three single-precision numbers, each by its bits.
#[derive(Clone, Copy, Debug, PartialEq, Eq, Structural)]
pub struct Vec3f {
    pub x: u32,
    pub y: u32,
    pub z: u32,
}

#[derive(Clone, Debug)]
pub struct Str {
    pub value: String,
}

#[derive(Clone, Copy, Debug, PartialEq, Eq, Structural)]
pub struct Id {
    pub value: i64,
}

#[derive(Debug)]
pub struct ListStorage {
    pub element: Vec<TypedValue>,
}

#[derive(Debug)]
pub struct MapStorage {
    pub pairs: Vec<TypedValue>,
}

#[derive(Debug)]
pub struct MapPairStorage {
    pub key: Option<Box<TypedValue>>,
    pub value: Option<Box<TypedValue>>,
}

#[derive(Debug)]
pub struct StructStorage {
    pub field: Vec<TypedValue>,
}

/// The content of a typed value.
#[derive(Debug)]
pub enum Storage {
    ValEnum(Enum),
    ValInt(Int),
    ValFloat(Flt),
    ValVector(Vec3f),
    ValString(Str),
    ValId(Id),
    ValList(ListStorage),
    ValMap(MapStorage),
    ValPair(Box<MapPairStorage>),
    ValStruct(StructStorage),
    ValPoly(Box<PolymorphicValue>),
}

/// Editor metadata of a polymorphic value: how its container is shown and
/// which structure it is bound to.
#[derive(Clone, Copy, Debug, PartialEq, Eq, Structural)]
pub struct DynamicTypeMetadata {
    pub version: i32,
    pub container_style: WidgetType,
    pub schema_binding: Option<StructReference>,
}

/// A value whose type is picked among several: the index of the chosen
/// type and the value itself.
#[derive(Debug)]
pub struct PolymorphicValue {
    pub chosen_type_index: i32,
    pub actual_value: Option<Box<TypedValue>>,
    pub extra_meta: Option<DynamicTypeMetadata>,
}

#[derive(Clone, Copy, Debug, PartialEq, Eq, Structural)]
pub struct StructReference {
    pub schema_id: i64,
}

#[derive(Clone, Copy, Debug, PartialEq, Eq, Structural)]
pub struct MapKeyValueBinding {
    pub key_type: i32,
    pub value_type: i32,
    pub value_struct_id: Option<i64>,
}

/// Extra shape information of a composite server type.
#[derive(Clone, Copy, Debug, PartialEq, Eq, Structural)]
pub enum Schema {
    StructRef(StructReference),
    MapBinding(MapKeyValueBinding),
}

#[derive(Clone, Copy, Debug, PartialEq, Eq, Structural)]
pub struct ServerType {
    pub type_tag: i32,
    pub implementation: i32,
    pub schema: Option<Schema>,
}

#[derive(Clone, Copy, Debug, PartialEq, Eq, Structural)]
pub struct ClientType {
    pub type_tag: i32,
}

#[derive(Clone, Copy, Debug, PartialEq, Eq, Structural)]
pub enum TypeDetail {
    ServerSide(ServerType),
    ClientSide(ClientType),
}

#[derive(Clone, Copy, Debug, PartialEq, Eq, Structural)]
pub struct TypeDefinition {
    pub backend: Backend,
    pub type_detail: Option<TypeDetail>,
}

/// A value together with its type and its editor widget.
#[derive(Debug)]
pub struct TypedValue {
    pub widget: WidgetType,
    pub is_set: bool,
    pub type_def: Option<TypeDefinition>,
    pub storage: Option<Storage>,
}

/// The type details that a pin of a node interface carries.
#[derive(Clone, Copy, Debug, PartialEq, Eq, Structural)]
pub enum TypeInfoDetail {
    EnumId(i64),
    MapType { key: i32, value: i32, value_id: Option<i64>, unknown: i32, unknown1: i32 },
    StructId(i64),
}

/// The role of a pin.
#[derive(Clone, Copy, Debug, PartialEq, Eq, Structural)]
pub enum PinKind {
    InControl,
    OutControl,
    InValue,
    OutValue,
    /// The structure a structure node works on.
    StructRef,
    /// The hidden pin that picks the fields to modify.
    StructKeySelect,
    /// The new value of a field.
    StructKeySet,
    /// Whether a field is modified.
    StructKeyMod,
}

/// A pin, by its role and its index among the pins of that role.
#[derive(Clone, Copy, Debug, PartialEq, Eq, Structural)]
pub struct PinSignature {
    pub kind: PinKind,
    pub index: i32,
}

/// The other end of a link, seen from a pin.
#[derive(Clone, Copy, Debug, PartialEq, Eq, Structural)]
pub struct NodeConnection {
    pub target_node_index: i32,
    pub target_pin_shell: Option<PinSignature>,
    pub target_pin_kernel: Option<PinSignature>,
}

/// A pin of a node instance: its signature, its value and type, and its
/// links.
#[derive(Debug)]
pub struct PinData {
    pub shell_sig: Option<PinSignature>,
    pub kernel_sig: Option<PinSignature>,
    pub value: Option<TypedValue>,
    pub type_id: Option<i32>,
    pub connection: Vec<NodeConnection>,
    pub persistent_pin_uid: Option<i32>,
}

/// A node of an encoded graph: its number, the identifiers of its shape
/// and of its implementation, its pins and its position.
#[derive(Debug)]
pub struct NodeInstance {
    pub index: i32,
    pub shell_ref: Option<Identifier>,
    pub kernel_ref: Option<Identifier>,
    pub pins: Vec<PinData>,
    /// The position in the editor, each coordinate by the bits of its
    /// single-precision form.
    pub x_pos: u32,
    pub y_pos: u32,
}

/// How a pin of a composite graph's interface reaches a pin of a node
/// inside it.
#[derive(Clone, Copy, Debug, PartialEq, Eq, Structural)]
pub struct InterfaceMapping {
    pub external_port: Option<PinSignature>,
    pub internal_target_node_handle: i32,
    pub internal_port_shell: Option<PinSignature>,
    pub internal_port_kernel: Option<PinSignature>,
}

/// An encoded node graph.
#[derive(Debug)]
pub struct NodeGraphData {
    pub id: Identifier,
    pub display_name: String,
    pub node: Vec<NodeInstance>,
    pub port_mapping: Vec<InterfaceMapping>,
    pub blackboard: Vec<GraphVariableData>,
}

/// The type of a pin of a node interface, as the editor shows it.
#[derive(Clone, Copy, Debug, PartialEq, Eq, Structural)]
pub struct TypeInfo {
    pub ui_class: Option<WidgetType>,
    pub var_type_shell: Option<i32>,
    pub var_type_kernel: Option<i32>,
    pub detail: Option<TypeInfoDetail>,
}

/// A pin of a node interface.
#[derive(Debug)]
pub struct PinInterface {
    pub name: String,
    pub visibility_mask: i32,
    pub sig: Option<PinSignature>,
    pub type_info: Option<TypeInfo>,
    pub meta_sig_type: Option<PinSignature>,
    pub persistent_pin_uid: i32,
}

/// The identifiers of a node interface: of its shape, of its
/// implementation, and of the graph that implements it.
#[derive(Clone, Copy, Debug, PartialEq, Eq, Structural)]
pub struct InterfaceSignature {
    pub shell_ref: Option<Identifier>,
    pub kernel_ref: Option<Identifier>,
    pub graph_ref: Option<Identifier>,
}

/// What implements a node interface.
#[derive(Clone, Copy, Debug, PartialEq, Eq, Structural)]
pub enum ImplCategory {
    Composite,
    StructAssembly,
    StructSplit,
    StructModify,
}

/// The structure that a structure node works on.
#[derive(Clone, Copy, Debug, PartialEq, Eq, Structural)]
pub enum ImplTemplate {
    AssembleStruct(i64),
    SplitStruct(i64),
    ModifyStruct(i64),
}

#[derive(Clone, Copy, Debug, PartialEq, Eq, Structural)]
pub struct InterfaceImplementation {
    pub category: ImplCategory,
    pub template: Option<ImplTemplate>,
}

/// The family of node templates an interface belongs to.
#[derive(Clone, Copy, Debug, PartialEq, Eq, Structural)]
pub enum TemplateRoot {
    UserComposite,
    Struct,
}

#[derive(Clone, Copy, Debug, PartialEq, Eq, Structural)]
pub enum TemplateSub {
    NoSub,
    StructSub,
}

/// The interface of a node that the editor can place: its identifiers,
/// its pins by role, and what implements it.
#[derive(Debug)]
pub struct NodeInterface {
    pub id: Option<InterfaceSignature>,
    pub inflows: Vec<PinInterface>,
    pub outflows: Vec<PinInterface>,
    pub inputs: Vec<PinInterface>,
    pub outputs: Vec<PinInterface>,
    /// The special pins: structure references, field selectors and the
    /// like.
    pub meta_pins: Vec<PinInterface>,
    pub implementation: Option<InterfaceImplementation>,
    pub name: String,
    pub description: String,
    pub template_root: TemplateRoot,
    pub template_sub: TemplateSub,
}

/// What an asset of a bundle is.
#[derive(Clone, Copy, Debug, PartialEq, Eq, Structural)]
pub enum AssetType {
    EntityNodeGraph,
    CompositeNodeDecl,
    Structure,
}

/// The content of an asset.
#[derive(Debug)]
pub enum Payload {
    GraphData(NodeGraphData),
    InterfaceData(NodeInterface),
    StructData(StructureDefinitionData),
}

/// What qualifies the type of a structure field: the structure it is, or
/// the key and value types of a dictionary.
#[derive(Clone, Copy, Debug, PartialEq, Eq, Structural)]
pub struct FieldSubtype {
    pub is_set: bool,
    pub struct_id: i64,
    pub key: Option<i32>,
    pub value: Option<i32>,
    pub value_id: Option<i64>,
}

/// The type of a structure field: its server type and its qualification.
#[derive(Clone, Copy, Debug, PartialEq, Eq, Structural)]
pub struct FieldKind {
    pub primary: i32,
    pub sub: Option<FieldSubtype>,
}

/// The snapshot reference that a structure default refers to.
#[derive(Clone, Copy, Debug, PartialEq, Eq, Structural)]
pub struct StructValId {
    pub kind: i32,
    pub id: i64,
}

/// The default value of a structure field.
#[derive(Debug)]
pub enum FieldVal {
    BooleanVal(Enum),
    IntVal(Int),
    StrVal(Str),
    FloatVal(Flt),
    Vec3Val(Vec3f),
    GuidVal(Id),
    IntList(Vec<i32>),
    /// An empty dictionary of the given key and value types.
    Dict { key_type: i32, value_type: i32, value_type_id: Option<i64> },
    Structure { struct_id: i64, id: Option<StructValId> },
}

/// A typed default of a structure field.
#[derive(Debug)]
pub struct FieldDefault {
    pub value_type: i32,
    pub kind: Option<FieldKind>,
    pub val: Option<FieldVal>,
}

/// A field of a structure definition, numbered from 1.
#[derive(Debug)]
pub struct VarDef {
    pub kind: Option<FieldKind>,
    pub name: String,
    pub var_name: String,
    pub var_type: i32,
    pub var_index: i32,
    pub def: Option<FieldDefault>,
}

/// The fields of a structure definition.
#[derive(Debug)]
pub struct StructFields {
    pub id: i64,
    pub xxx: i32,
    pub var: Vec<VarDef>,
    pub struct_name: String,
    pub class_base: i32,
    pub index: i32,
}

/// An encoded structure definition: its fields, in generic and concrete
/// form, its version and its number of fields.
#[derive(Debug)]
pub struct StructureDefinitionData {
    pub generic_fields: Option<StructFields>,
    pub concrete_fields: Option<StructFields>,
    pub struct_version: i32,
    pub item_count: i32,
    pub unknown1: i32,
}

/// An asset of a bundle: its identifier, the identifiers it refers to, its
/// name and type, and its content.
#[derive(Debug)]
pub struct AssetData {
    pub id: Option<Identifier>,
    pub references: Vec<Identifier>,
    pub name: String,
    pub asset_type: AssetType,
    pub payload: Payload,
}

/// A variable of a graph's blackboard.
#[derive(Debug)]
pub struct GraphVariableData {
    pub var_name: String,
    pub base_type: i32,
    pub storage_value: Option<TypedValue>,
    pub is_public: bool,
    pub schema_ref_id: Option<i64>,
    pub container_key_type: i32,
    pub container_value_type: i32,
}

} // verus!
