//! Structure definitions: user structures, the node declarations that
//! assemble, split and modify them, and their encoding as an asset.

use vstd::prelude::*;

use crate::bundle::{allocated, bundle_wf, counters, AssetBundle, AssetRef};
use crate::decl::{decl_asset_ok, decl_kind_ok, pin_total, DeclPin, NodeDecl, PinTable};
use crate::graph::{kind_copy, NodeKind};
use crate::ids::{AssetKind, Category, Identifier, Side};
use crate::message::{
    AssetData, AssetType, Enum, FieldDefault, FieldKind, FieldSubtype, FieldVal, Flt, Id,
    ImplCategory, ImplTemplate, Int, InterfaceImplementation, Payload, PinKind, PinSignature,
    ServerTypeId, StructFields, StructValId, StructureDefinitionData, TemplateRoot, TemplateSub,
    Storage, VarDef, Vec3f,
};
use crate::value::{
    bool_code, encodable, leaf_storage_ok, same_value, server_type_of, storage_ok, struct_id_of,
    AnyValue, ValueBool, ValueStruct, ValueVec3,
};

verus! {

/// A field of a structure: its name and a value of its type, which is
/// also its default.
pub struct StructField {
    pub name: String,
    pub value: AnyValue,
}

/// A structure that the user defines: its name, its version and its
/// fields in order.
pub struct StructureDefinition {
    pub name: String,
    pub version: i32,
    pub fields: Vec<StructField>,
}

/// The node declarations that come with a structure.
#[derive(Clone, Copy, Debug, PartialEq, Eq, Hash, Structural)]
pub enum StructureNodeDecl {
    /// Field values to a structure value (server side).
    AssembleServer,
    /// A structure value to its field values (server side).
    DestructServer,
    /// Sets chosen fields of a structure value (server only).
    Modify,
}

/// A registered structure: the values of its fields, and its node
/// declarations in the order they were registered.
pub struct StructureRef {
    pub fields: Vec<AnyValue>,
    pub decls: Vec<(StructureNodeDecl, AssetRef<NodeKind>)>,
}

/// The subtype that an unqualified field type is given.
pub open spec fn plain_subtype() -> FieldSubtype {
    FieldSubtype { is_set: false, struct_id: 0, key: None, value: None, value_id: None }
}

/// What qualifies the type of `v`: the structure of a structure value, the
/// key and value types of a dictionary; nothing for the other values.
pub open spec fn subtype_of(v: AnyValue) -> Option<FieldSubtype> {
    match v {
        AnyValue::Dict(d) => Some(
            FieldSubtype {
                is_set: true,
                struct_id: 0x41000001,
                key: Some(server_type_of(d.key_type).spec_code()),
                value: Some(server_type_of(d.value_type).spec_code()),
                value_id: struct_id_of(d.value_type),
            },
        ),
        AnyValue::Struct(s) => Some(
            FieldSubtype { is_set: true, struct_id: s.struct_id, key: None, value: None, value_id: None },
        ),
        _ => None,
    }
}

/// The type of a field whose value is `v`.
pub open spec fn field_kind_of(v: AnyValue) -> FieldKind {
    FieldKind {
        primary: server_type_of(v).spec_code(),
        sub: Some(
            match subtype_of(v) {
                Some(s) => s,
                None => plain_subtype(),
            },
        ),
    }
}

/// A value whose content is stored: all but entities and references.
pub open spec fn has_storage(v: AnyValue) -> bool {
    match v {
        AnyValue::Entity(_) | AnyValue::LocalVarRef(_) | AnyValue::VarSnapshotRef(_) => false,
        _ => true,
    }
}

/// A value that can be a field of a structure definition: one without
/// stored content, or one whose default the format can write (a boolean,
/// an integer, a string, a number, a vector, a GUID, an integer list, an
/// empty dictionary or a structure).
pub open spec fn field_encodable(v: AnyValue) -> bool {
    match v {
        AnyValue::Entity(_) | AnyValue::LocalVarRef(_) | AnyValue::VarSnapshotRef(_)
        | AnyValue::Bool(_) | AnyValue::Int(_) | AnyValue::Str(_) | AnyValue::Float(_)
        | AnyValue::Vec3(_) | AnyValue::Guid(_) | AnyValue::IntList(_) => true,
        AnyValue::Dict(d) => d.data@.len() == 0,
        AnyValue::Struct(_) => encodable(v),
        _ => false,
    }
}

/// `val` is the default that a field of value `v` is written with.
pub open spec fn field_val_ok(val: FieldVal, v: AnyValue) -> bool {
    match v {
        AnyValue::Bool(b) => val == FieldVal::BooleanVal(Enum { value: bool_code(b.0) }),
        AnyValue::Int(i) => val == FieldVal::IntVal(Int { value: i.0 }),
        AnyValue::Str(s) => val matches FieldVal::StrVal(x) && x.value@ == s.0@,
        AnyValue::Float(f) => val == FieldVal::FloatVal(Flt { value: f.0 }),
        AnyValue::Vec3(x) => val == FieldVal::Vec3Val(Vec3f { x: x.x, y: x.y, z: x.z }),
        AnyValue::Guid(g) => val == FieldVal::GuidVal(Id { value: g.0 }),
        AnyValue::IntList(l) => val matches FieldVal::IntList(items) && items@ == l.0@,
        AnyValue::Dict(d) => val == FieldVal::Dict {
            key_type: server_type_of(d.key_type).spec_code(),
            value_type: server_type_of(d.value_type).spec_code(),
            value_type_id: struct_id_of(d.value_type),
        },
        AnyValue::Struct(s) => val == FieldVal::Structure {
            struct_id: s.struct_id,
            id: Some(StructValId { kind: ServerTypeId::SVarSnapshotRef.spec_code(), id: 0x40000001 }),
        },
        _ => false,
    }
}

/// `d` is the field `f` written as field number `index`: its type, its
/// names, and its default where its value has stored content.
pub open spec fn var_def_ok(d: VarDef, f: StructField, index: int) -> bool {
    let ty = server_type_of(f.value).spec_code();
    &&& d.kind == Some(field_kind_of(f.value))
    &&& d.name@ == f.name@
    &&& d.var_name@ == f.name@
    &&& d.var_type == ty
    &&& d.var_index == index
    &&& has_storage(f.value) ==> (d.def matches Some(x) && x.value_type == ty && x.kind == Some(
        field_kind_of(f.value),
    ) && (x.val matches Some(val) && field_val_ok(val, f.value)))
    &&& !has_storage(f.value) ==> d.def is None
}

/// `fs` are the fields of `s` written for the structure numbered `id`,
/// with field index `index`.
pub open spec fn fields_ok(fs: StructFields, s: StructureDefinition, id: i64, index: i32) -> bool {
    &&& fs.id == id
    &&& fs.xxx == 0
    &&& fs.var@.len() == s.fields@.len()
    &&& forall|i: int| 0 <= i < fs.var@.len() ==> var_def_ok(#[trigger] fs.var@[i], s.fields@[i], i + 1)
    &&& fs.struct_name@ == s.name@
    &&& fs.class_base == 1
    &&& fs.index == index
}

impl StructField {
    /// The default that the field is written with.
    fn encode_field_value(&self) -> (r: FieldVal)
        requires
            field_encodable(self.value),
            has_storage(self.value),
        ensures
            field_val_ok(r, self.value),
    {
        match &self.value {
            AnyValue::Bool(b) => FieldVal::BooleanVal(b.encode()),
            AnyValue::Int(i) => FieldVal::IntVal(i.encode()),
            AnyValue::Str(s) => FieldVal::StrVal(s.encode()),
            AnyValue::Float(f) => FieldVal::FloatVal(f.encode()),
            AnyValue::Vec3(v) => FieldVal::Vec3Val(v.encode()),
            AnyValue::Guid(g) => FieldVal::GuidVal(g.encode()),
            AnyValue::IntList(l) => FieldVal::IntList(l.0.clone()),
            AnyValue::Dict(d) => FieldVal::Dict {
                key_type: d.key_type.get_server_type().code(),
                value_type: d.value_type.get_server_type().code(),
                value_type_id: match &d.value_type {
                    AnyValue::Struct(s) => Some(s.get_struct_id()),
                    _ => None,
                },
            },
            AnyValue::Struct(s) => FieldVal::Structure {
                struct_id: s.get_struct_id(),
                id: Some(StructValId { kind: ServerTypeId::SVarSnapshotRef.code(), id: 0x40000001 }),
            },
            _ => {
                proof {
                    assert(false);
                }
                FieldVal::IntVal(Int { value: 0 })
            },
        }
    }

    /// What qualifies the field's type, if anything does.
    fn encode_subtype(&self) -> (r: Option<FieldSubtype>)
        ensures
            r == subtype_of(self.value),
    {
        match &self.value {
            AnyValue::Dict(d) => Some(
                FieldSubtype {
                    is_set: true,
                    struct_id: 0x41000001,
                    key: Some(d.key_type.get_server_type().code()),
                    value: Some(d.value_type.get_server_type().code()),
                    value_id: match &d.value_type {
                        AnyValue::Struct(s) => Some(s.get_struct_id()),
                        _ => None,
                    },
                },
            ),
            AnyValue::Struct(s) => Some(
                FieldSubtype {
                    is_set: true,
                    struct_id: s.get_struct_id(),
                    key: None,
                    value: None,
                    value_id: None,
                },
            ),
            _ => None,
        }
    }

    /// The field written as field number `index`.
    fn encode_var_def(&self, index: i32) -> (r: VarDef)
        requires
            field_encodable(self.value),
        ensures
            var_def_ok(r, *self, index as int),
    {
        let ty = self.value.get_server_type().code();
        let sub = match self.encode_subtype() {
            Some(s) => s,
            None => FieldSubtype { is_set: false, struct_id: 0, key: None, value: None, value_id: None },
        };
        let kind = FieldKind { primary: ty, sub: Some(sub) };
        let stored = self.value.encode_storage(Side::Server).is_some();
        proof {
            reveal_with_fuel(storage_ok, 2);
        }
        assert(stored == has_storage(self.value));
        let def = if stored {
            Some(FieldDefault { value_type: ty, kind: Some(kind), val: Some(self.encode_field_value()) })
        } else {
            None
        };
        VarDef {
            kind: Some(kind),
            name: self.name.clone(),
            var_name: self.name.clone(),
            var_type: ty,
            var_index: index,
            def,
        }
    }
}

impl StructureDefinition {
    /// The fields written for the structure numbered `id`, with field
    /// index `index`, numbered from 1.
    fn encode_fields(&self, id: i64, index: i32) -> (r: StructFields)
        requires
            self.fields@.len() < i32::MAX,
            forall|i: int| 0 <= i < self.fields@.len() ==> field_encodable((#[trigger] self.fields@[i]).value),
        ensures
            fields_ok(r, *self, id, index),
    {
        let mut var: Vec<VarDef> = Vec::new();
        let mut i: usize = 0;
        while i < self.fields.len()
            invariant
                i <= self.fields@.len(),
                self.fields@.len() < i32::MAX,
                forall|j: int| 0 <= j < self.fields@.len() ==> field_encodable((#[trigger] self.fields@[j]).value),
                var@.len() == i,
                forall|j: int| 0 <= j < i ==> var_def_ok(#[trigger] var@[j], self.fields@[j], j + 1),
            decreases self.fields@.len() - i,
        {
            let d = self.fields[i].encode_var_def((i as i32) + 1);
            var.push(d);
            i = i + 1;
        }
        StructFields {
            id,
            xxx: 0,
            var,
            struct_name: self.name.clone(),
            class_base: 1,
            index,
        }
    }
}

// ---------------------------------------------------------------------------
// The node declarations of a structure.
// ---------------------------------------------------------------------------

/// The signature that marks a special pin of role `kind`.
pub open spec fn meta_sig(kind: PinKind) -> Option<PinSignature> {
    Some(PinSignature { kind, index: 0 })
}

/// `v` is a value of the structure `s` numbered `id`: its fields hold the
/// fields' values.
pub open spec fn struct_value_ok(v: ValueStruct, s: StructureDefinition, id: i64) -> bool {
    &&& v.struct_id == id
    &&& v.fields@.len() == s.fields@.len()
    &&& forall|i: int| 0 <= i < v.fields@.len() ==> same_value(#[trigger] v.fields@[i], s.fields@[i].value)
}

/// `p` is the pin of a value of the structure `s` numbered `id`, named
/// after the structure.
pub open spec fn struct_pin_ok(p: DeclPin, s: StructureDefinition, id: i64) -> bool {
    &&& p.name@ == s.name@
    &&& p.meta == meta_sig(PinKind::StructRef)
    &&& p.kind matches Some(AnyValue::Struct(v)) && struct_value_ok(v, s, id)
}

/// `ps` are the pins of the fields of `s`, in order: named after the
/// field, of its type.
pub open spec fn field_pins_ok(ps: Seq<DeclPin>, s: StructureDefinition) -> bool {
    &&& ps.len() == s.fields@.len()
    &&& forall|i: int|
        0 <= i < ps.len() ==> {
            let p = #[trigger] ps[i];
            &&& p.name@ == s.fields@[i].name@
            &&& p.meta is None
            &&& p.kind matches Some(k) && same_value(k, s.fields@[i].value)
        }
}

/// A control pin without name.
pub open spec fn plain_control(p: DeclPin) -> bool {
    p.name@.len() == 0 && p.kind is None && p.meta is None
}

/// What every declaration of the structure `root` shares: an empty
/// description, the structure template, and a reference to the structure.
pub open spec fn struct_template_ok(d: NodeDecl, root: Identifier) -> bool {
    &&& d.description@.len() == 0
    &&& d.template_root == TemplateRoot::Struct
    &&& d.template_sub == TemplateSub::StructSub
    &&& d.references@ == seq![root]
}

/// `d` declares the node that assembles a value of `s` (registered as
/// `root`) from its field values.
pub open spec fn assemble_decl_ok(d: NodeDecl, s: StructureDefinition, root: Identifier) -> bool {
    &&& d.name@ == "Assemble Struct Server"@
    &&& d.pins.in_control@.len() == 0
    &&& d.pins.out_control@.len() == 0
    &&& field_pins_ok(d.pins.in_value@, s)
    &&& d.pins.out_value@.len() == 1
    &&& struct_pin_ok(d.pins.out_value@[0], s, root.guid)
    &&& d.implementation == (InterfaceImplementation {
        category: ImplCategory::StructAssembly,
        template: Some(ImplTemplate::AssembleStruct(root.guid)),
    })
    &&& struct_template_ok(d, root)
}

/// `d` declares the node that splits a value of `s` (registered as
/// `root`) into its field values.
pub open spec fn destruct_decl_ok(d: NodeDecl, s: StructureDefinition, root: Identifier) -> bool {
    &&& d.name@ == "Destruct Struct Server"@
    &&& d.pins.in_control@.len() == 0
    &&& d.pins.out_control@.len() == 0
    &&& d.pins.in_value@.len() == 1
    &&& struct_pin_ok(d.pins.in_value@[0], s, root.guid)
    &&& field_pins_ok(d.pins.out_value@, s)
    &&& d.implementation == (InterfaceImplementation {
        category: ImplCategory::StructSplit,
        template: Some(ImplTemplate::SplitStruct(root.guid)),
    })
    &&& struct_template_ok(d, root)
}

/// `ps` are the value inputs of the node that modifies a value of `s`
/// numbered `id`: the value, the hidden selector, then for each field its
/// new value and whether to set it.
pub open spec fn modify_inputs_ok(ps: Seq<DeclPin>, s: StructureDefinition, id: i64) -> bool {
    &&& ps.len() == 2 + 2 * s.fields@.len()
    &&& struct_pin_ok(ps[0], s, id)
    &&& ps[1].name@ == "Struct Key Select"@
    &&& ps[1].kind is None
    &&& ps[1].meta == meta_sig(PinKind::StructKeySelect)
    &&& forall|i: int|
        0 <= i < s.fields@.len() ==> {
            let f = #[trigger] s.fields@[i];
            let set = ps[2 + 2 * i];
            let flag = ps[3 + 2 * i];
            &&& set.name@ == "."@ + f.name@
            &&& set.kind matches Some(k) && same_value(k, f.value)
            &&& set.meta == meta_sig(PinKind::StructKeySet)
            &&& flag.name@ == "modify("@ + f.name@ + ")"@
            &&& flag.kind == Some(AnyValue::Bool(ValueBool(false)))
            &&& flag.meta == meta_sig(PinKind::StructKeyMod)
        }
}

/// `d` declares the node that modifies chosen fields of a value of `s`
/// (registered as `root`).
pub open spec fn modify_decl_ok(d: NodeDecl, s: StructureDefinition, root: Identifier) -> bool {
    &&& d.name@ == "Modify Struct"@
    &&& d.pins.in_control@.len() == 1
    &&& plain_control(d.pins.in_control@[0])
    &&& d.pins.out_control@.len() == 1
    &&& plain_control(d.pins.out_control@[0])
    &&& modify_inputs_ok(d.pins.in_value@, s, root.guid)
    &&& d.pins.out_value@.len() == 0
    &&& d.implementation == (InterfaceImplementation {
        category: ImplCategory::StructModify,
        template: Some(ImplTemplate::ModifyStruct(root.guid)),
    })
    &&& struct_template_ok(d, root)
}

/// `a` is the asset of the declaration `d`, registered as `r`, and `r`
/// carries the kind of the nodes it declares.
pub open spec fn decl_built(a: AssetData, r: AssetRef<NodeKind>, d: NodeDecl) -> bool {
    &&& decl_asset_ok(a, r.root, d)
    &&& decl_kind_ok(
        r.data,
        r.root.guid,
        d.pins.in_control@.len() as usize,
        d.pins.out_control@.len() as usize,
        d.pins.in_value@.map_values(|p: DeclPin| p.kind),
        d.pins.out_value@.map_values(|p: DeclPin| p.kind->0),
    )
}

/// `a` is the asset of the structure `s` registered as `root`, which
/// refers to the declarations `refs`: the fields twice, the version and
/// the number of fields.
pub open spec fn structure_asset_ok(a: AssetData, s: StructureDefinition, root: Identifier, refs: Seq<Identifier>) -> bool {
    &&& a.id == Some(root)
    &&& a.references@ == refs
    &&& a.name@.len() == 0
    &&& a.asset_type == AssetType::Structure
    &&& a.payload matches Payload::StructData(sd) && {
        &&& sd.generic_fields matches Some(g) && fields_ok(g, s, root.guid, s.version)
        &&& sd.concrete_fields matches Some(c) && fields_ok(c, s, root.guid, s.version)
        &&& sd.struct_version == s.version
        &&& sd.item_count == s.fields@.len()
        &&& sd.unknown1 == 1
    }
}

impl StructureDefinition {
    /// Copies of the values of the fields, in order.
    fn field_values(&self) -> (r: Vec<AnyValue>)
        ensures
            r@.len() == self.fields@.len(),
            forall|i: int| 0 <= i < r@.len() ==> same_value(#[trigger] r@[i], self.fields@[i].value),
    {
        let mut r: Vec<AnyValue> = Vec::new();
        let mut i: usize = 0;
        while i < self.fields.len()
            invariant
                i <= self.fields@.len(),
                r@.len() == i,
                forall|j: int| 0 <= j < i ==> same_value(#[trigger] r@[j], self.fields@[j].value),
            decreases self.fields@.len() - i,
        {
            r.push(self.fields[i].value.duplicate());
            i = i + 1;
        }
        r
    }

    /// The pin of a value of this structure, numbered `id`.
    fn struct_pin(&self, id: i64) -> (r: DeclPin)
        ensures
            struct_pin_ok(r, *self, id),
    {
        let fields = self.field_values();
        DeclPin {
            name: self.name.clone(),
            kind: Some(AnyValue::Struct(ValueStruct { struct_id: id, fields })),
            meta: Some(PinSignature { kind: PinKind::StructRef, index: 0 }),
        }
    }

    /// The pins of the fields, in order.
    fn field_pins(&self) -> (r: Vec<DeclPin>)
        ensures
            field_pins_ok(r@, *self),
    {
        let mut r: Vec<DeclPin> = Vec::new();
        let mut i: usize = 0;
        while i < self.fields.len()
            invariant
                i <= self.fields@.len(),
                r@.len() == i,
                forall|j: int|
                    0 <= j < i ==> {
                        let p = #[trigger] r@[j];
                        &&& p.name@ == self.fields@[j].name@
                        &&& p.meta is None
                        &&& p.kind matches Some(k) && same_value(k, self.fields@[j].value)
                    },
            decreases self.fields@.len() - i,
        {
            let f = &self.fields[i];
            r.push(DeclPin { name: f.name.clone(), kind: Some(f.value.duplicate()), meta: None });
            i = i + 1;
        }
        r
    }

    /// The value inputs of the node that modifies a value of this
    /// structure, numbered `id`.
    fn modify_pins(&self, id: i64) -> (r: Vec<DeclPin>)
        ensures
            modify_inputs_ok(r@, *self, id),
    {
        let mut r: Vec<DeclPin> = Vec::new();
        r.push(self.struct_pin(id));
        r.push(
            DeclPin {
                name: String::from_str("Struct Key Select"),
                kind: None,
                meta: Some(PinSignature { kind: PinKind::StructKeySelect, index: 0 }),
            },
        );
        let mut i: usize = 0;
        while i < self.fields.len()
            invariant
                i <= self.fields@.len(),
                r@.len() == 2 + 2 * i,
                struct_pin_ok(r@[0], *self, id),
                r@[1].name@ == "Struct Key Select"@,
                r@[1].kind is None,
                r@[1].meta == meta_sig(PinKind::StructKeySelect),
                forall|j: int|
                    0 <= j < i ==> {
                        let f = #[trigger] self.fields@[j];
                        let set = r@[2 + 2 * j];
                        let flag = r@[3 + 2 * j];
                        &&& set.name@ == "."@ + f.name@
                        &&& set.kind matches Some(k) && same_value(k, f.value)
                        &&& set.meta == meta_sig(PinKind::StructKeySet)
                        &&& flag.name@ == "modify("@ + f.name@ + ")"@
                        &&& flag.kind == Some(AnyValue::Bool(ValueBool(false)))
                        &&& flag.meta == meta_sig(PinKind::StructKeyMod)
                    },
            decreases self.fields@.len() - i,
        {
            let f = &self.fields[i];
            let ghost before = r@;
            r.push(
                DeclPin {
                    name: String::from_str(".").concat(f.name.as_str()),
                    kind: Some(f.value.duplicate()),
                    meta: Some(PinSignature { kind: PinKind::StructKeySet, index: 0 }),
                },
            );
            r.push(
                DeclPin {
                    name: String::from_str("modify(").concat(f.name.as_str()).concat(")"),
                    kind: Some(AnyValue::Bool(ValueBool(false))),
                    meta: Some(PinSignature { kind: PinKind::StructKeyMod, index: 0 }),
                },
            );
            assert forall|j: int| 0 <= j < 2 + 2 * i implies r@[j] == before[j] by {}
            i = i + 1;
        }
        r
    }
}

impl StructureDefinition {
    /// Registers the structure in `bundle`: its identifier, then its node
    /// declarations (assemble, split, modify) in that order, then its own
    /// asset, which refers to them. It panics on a field whose default
    /// the format cannot write.
    pub fn apply(self, bundle: &mut AssetBundle) -> (r: AssetRef<StructureRef>)
        requires
            bundle_wf(*old(bundle)),
            counters(old(bundle).allocators@).contains_key(Category::Default),
            counters(old(bundle).allocators@)[Category::Default] < i64::MAX,
            counters(old(bundle).allocators@).contains_key(Category::NodeDecl),
            counters(old(bundle).allocators@)[Category::NodeDecl] < i64::MAX - 3,
            2 * self.fields@.len() + 4 < i32::MAX,
            forall|i: int| 0 <= i < self.fields@.len() ==> field_encodable((#[trigger] self.fields@[i]).value),
        ensures
            ({
                let c = counters(old(bundle).allocators@);
                let n = old(bundle).assets@.len() as int;
                let decls = r.data.decls@;
                &&& r.root == allocated(Category::Default, AssetKind::Structure, c[Category::Default])
                &&& r.data.fields@.len() == self.fields@.len()
                &&& forall|i: int|
                    0 <= i < r.data.fields@.len() ==> same_value(#[trigger] r.data.fields@[i], self.fields@[i].value)
                &&& decls.len() == 3
                &&& decls[0].0 == StructureNodeDecl::AssembleServer
                &&& decls[1].0 == StructureNodeDecl::DestructServer
                &&& decls[2].0 == StructureNodeDecl::Modify
                &&& decls[0].1.root == allocated(Category::NodeDecl, AssetKind::Basic, c[Category::NodeDecl])
                &&& decls[1].1.root == allocated(Category::NodeDecl, AssetKind::Basic, (c[Category::NodeDecl] + 1) as i64)
                &&& decls[2].1.root == allocated(Category::NodeDecl, AssetKind::Basic, (c[Category::NodeDecl] + 2) as i64)
                &&& counters(final(bundle).allocators@) == c.insert(
                    Category::Default,
                    (c[Category::Default] + 1) as i64,
                ).insert(Category::NodeDecl, (c[Category::NodeDecl] + 3) as i64)
                &&& final(bundle).assets@.len() == n + 4
                &&& final(bundle).assets@.subrange(0, n) == old(bundle).assets@
                &&& exists|d: NodeDecl|
                    #[trigger] assemble_decl_ok(d, self, r.root) && decl_built(final(bundle).assets@[n], decls[0].1, d)
                &&& exists|d: NodeDecl|
                    #[trigger] destruct_decl_ok(d, self, r.root) && decl_built(final(bundle).assets@[n + 1], decls[1].1, d)
                &&& exists|d: NodeDecl|
                    #[trigger] modify_decl_ok(d, self, r.root) && decl_built(final(bundle).assets@[n + 2], decls[2].1, d)
                &&& structure_asset_ok(
                    final(bundle).assets@[n + 3],
                    self,
                    r.root,
                    seq![decls[0].1.root, decls[1].1.root, decls[2].1.root],
                )
            }),
            final(bundle).mode == old(bundle).mode,
            final(bundle).primary@ == old(bundle).primary@,
            bundle_wf(*final(bundle)),
    {
        let ghost c = counters(bundle.allocators@);
        let ghost n = bundle.assets@.len() as int;
        let root = bundle.alloc_id(Category::Default, AssetKind::Structure);
        let mut result = AssetRef { root, data: StructureRef { fields: self.field_values(), decls: Vec::new() } };

        let assemble = NodeDecl {
            name: String::from_str("Assemble Struct Server"),
            description: String::new(),
            pins: PinTable {
                in_control: Vec::new(),
                out_control: Vec::new(),
                in_value: self.field_pins(),
                out_value: vec![self.struct_pin(root.guid)],
            },
            implementation: InterfaceImplementation {
                category: ImplCategory::StructAssembly,
                template: Some(ImplTemplate::AssembleStruct(root.guid)),
            },
            template_root: TemplateRoot::Struct,
            template_sub: TemplateSub::StructSub,
            references: vec![root],
        };
        let destruct = NodeDecl {
            name: String::from_str("Destruct Struct Server"),
            description: String::new(),
            pins: PinTable {
                in_control: Vec::new(),
                out_control: Vec::new(),
                in_value: vec![self.struct_pin(root.guid)],
                out_value: self.field_pins(),
            },
            implementation: InterfaceImplementation {
                category: ImplCategory::StructSplit,
                template: Some(ImplTemplate::SplitStruct(root.guid)),
            },
            template_root: TemplateRoot::Struct,
            template_sub: TemplateSub::StructSub,
            references: vec![root],
        };
        let modify = NodeDecl {
            name: String::from_str("Modify Struct"),
            description: String::new(),
            pins: PinTable {
                in_control: vec![DeclPin { name: String::new(), kind: None, meta: None }],
                out_control: vec![DeclPin { name: String::new(), kind: None, meta: None }],
                in_value: self.modify_pins(root.guid),
                out_value: Vec::new(),
            },
            implementation: InterfaceImplementation {
                category: ImplCategory::StructModify,
                template: Some(ImplTemplate::ModifyStruct(root.guid)),
            },
            template_root: TemplateRoot::Struct,
            template_sub: TemplateSub::StructSub,
            references: vec![root],
        };
        let ghost da = assemble;
        let ghost dd = destruct;
        let ghost dm = modify;
        assert(da.references@ == seq![root]);
        assert(dd.references@ == seq![root]);
        assert(dm.references@ == seq![root]);
        assert(assemble_decl_ok(da, self, root));
        assert(destruct_decl_ok(dd, self, root));
        assert(modify_decl_ok(dm, self, root));

        let ra = assemble.apply(bundle);
        let ghost a0 = bundle.assets@;
        let rd = destruct.apply(bundle);
        let ghost a1 = bundle.assets@;
        let rm = modify.apply(bundle);
        let ghost a2 = bundle.assets@;
        assert(decl_built(a0.last(), ra, da));
        assert(decl_built(a1.last(), rd, dd));
        assert(decl_built(a2.last(), rm, dm));
        let refs = vec![ra.root, rd.root, rm.root];
        result.data.decls.push((StructureNodeDecl::AssembleServer, ra));
        result.data.decls.push((StructureNodeDecl::DestructServer, rd));
        result.data.decls.push((StructureNodeDecl::Modify, rm));

        let generic = self.encode_fields(root.guid, self.version);
        let concrete = self.encode_fields(root.guid, self.version);
        let item_count = self.fields.len() as i32;
        bundle.push(
            AssetData {
                id: Some(root),
                references: refs,
                name: String::new(),
                asset_type: AssetType::Structure,
                payload: Payload::StructData(
                    StructureDefinitionData {
                        generic_fields: Some(generic),
                        concrete_fields: Some(concrete),
                        struct_version: self.version,
                        item_count,
                        unknown1: 1,
                    },
                ),
            },
        );
        proof {
            let fin = bundle.assets@;
            assert(a0.drop_last() =~= old(bundle).assets@);
            assert(a1.drop_last() == a0);
            assert(a2.drop_last() == a1);
            assert(fin.drop_last() == a2);
            assert(fin.subrange(0, n) =~= old(bundle).assets@);
            assert(fin[n] == a0.last());
            assert(fin[n + 1] == a1.last());
            assert(fin[n + 2] == a2.last());
            assert(counters(bundle.allocators@) =~= c.insert(
                Category::Default,
                (c[Category::Default] + 1) as i64,
            ).insert(Category::NodeDecl, (c[Category::NodeDecl] + 3) as i64));
        }
        result
    }
}

// ---------------------------------------------------------------------------
// Using a registered structure.
// ---------------------------------------------------------------------------

/// The first declaration of kind `k` among `decls`, by its position.
pub open spec fn decl_index(decls: Seq<(StructureNodeDecl, AssetRef<NodeKind>)>, k: StructureNodeDecl, i: int) -> bool {
    &&& 0 <= i < decls.len()
    &&& decls[i].0 == k
    &&& forall|j: int| 0 <= j < i ==> (#[trigger] decls[j]).0 != k
}

/// A copy of the kind of the nodes that the declaration `k` of `st`
/// declares. It panics where `st` has no such declaration.
fn node_of(st: &StructureRef, k: StructureNodeDecl) -> (r: NodeKind)
    requires
        exists|i: int| 0 <= i < st.decls@.len() && (#[trigger] st.decls@[i]).0 == k,
    ensures
        exists|i: int| #[trigger] decl_index(st.decls@, k, i) && kind_copy(r, st.decls@[i].1.data),
{
    let mut i: usize = 0;
    while i < st.decls.len()
        invariant
            i <= st.decls@.len(),
            forall|j: int| 0 <= j < i ==> (#[trigger] st.decls@[j]).0 != k,
            exists|j: int| 0 <= j < st.decls@.len() && (#[trigger] st.decls@[j]).0 == k,
        decreases st.decls@.len() - i,
    {
        if st.decls[i].0 == k {
            let r = st.decls[i].1.data.duplicate();
            assert(decl_index(st.decls@, k, i as int));
            return r;
        }
        i = i + 1;
    }
    assert(false);
    st.decls[0].1.data.duplicate()
}

/// The kind of the nodes that assemble a value of the structure.
pub fn node_assemble_struct(st: &StructureRef) -> (r: NodeKind)
    requires
        exists|i: int| 0 <= i < st.decls@.len() && (#[trigger] st.decls@[i]).0 == StructureNodeDecl::AssembleServer,
    ensures
        exists|i: int|
            #[trigger] decl_index(st.decls@, StructureNodeDecl::AssembleServer, i) && kind_copy(r, st.decls@[i].1.data),
{
    node_of(st, StructureNodeDecl::AssembleServer)
}

/// The kind of the nodes that split a value of the structure.
pub fn node_destruct_struct(st: &StructureRef) -> (r: NodeKind)
    requires
        exists|i: int| 0 <= i < st.decls@.len() && (#[trigger] st.decls@[i]).0 == StructureNodeDecl::DestructServer,
    ensures
        exists|i: int|
            #[trigger] decl_index(st.decls@, StructureNodeDecl::DestructServer, i) && kind_copy(r, st.decls@[i].1.data),
{
    node_of(st, StructureNodeDecl::DestructServer)
}

/// The kind of the nodes that modify a value of the structure.
pub fn node_modify_struct(st: &StructureRef) -> (r: NodeKind)
    requires
        exists|i: int| 0 <= i < st.decls@.len() && (#[trigger] st.decls@[i]).0 == StructureNodeDecl::Modify,
    ensures
        exists|i: int|
            #[trigger] decl_index(st.decls@, StructureNodeDecl::Modify, i) && kind_copy(r, st.decls@[i].1.data),
{
    node_of(st, StructureNodeDecl::Modify)
}

impl ValueStruct {
    /// A value of the registered structure `r`, holding copies of its
    /// field values.
    pub fn new(r: &AssetRef<StructureRef>) -> (v: Self)
        ensures
            v.struct_id == r.root.guid,
            v.fields@.len() == r.data.fields@.len(),
            forall|i: int| 0 <= i < v.fields@.len() ==> same_value(#[trigger] v.fields@[i], r.data.fields@[i]),
    {
        let mut fields: Vec<AnyValue> = Vec::new();
        let mut i: usize = 0;
        while i < r.data.fields.len()
            invariant
                i <= r.data.fields@.len(),
                fields@.len() == i,
                forall|j: int| 0 <= j < i ==> same_value(#[trigger] fields@[j], r.data.fields@[j]),
            decreases r.data.fields@.len() - i,
        {
            fields.push(r.data.fields[i].duplicate());
            i = i + 1;
        }
        ValueStruct { struct_id: r.root.guid, fields }
    }
}


/// A vector field's default is the vector itself: each of its three
/// components stays in its own place, and the field holds the very triple
/// that the vector is stored as wherever it is a value.
pub proof fn lemma_vector_field_default(v: ValueVec3, val: FieldVal, st: Option<Storage>)
    requires
        field_val_ok(val, AnyValue::Vec3(v)),
        leaf_storage_ok(st, AnyValue::Vec3(v)),
    ensures
        val matches FieldVal::Vec3Val(w) && {
            &&& w.x == v.x
            &&& w.y == v.y
            &&& w.z == v.z
            &&& st == Some(Storage::ValVector(w))
        },
{
}

} // verus!
