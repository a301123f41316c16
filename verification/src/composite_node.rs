//! Composite node definitions: the outer signature of a sub-graph that can
//! be placed as one node, with its own entry and exit pins.

use vstd::prelude::*;

use crate::ids::{AssetKind, Category, Identifier, Source};
use crate::message::{
    AssetData, AssetType, ImplCategory, InterfaceImplementation, InterfaceSignature, NodeInterface,
    Payload, PinInterface, PinKind, PinSignature, ServerTypeId, TemplateRoot, TemplateSub, TypeInfo,
    TypeInfoDetail,
};

verus! {

/// A pin of a composite node's signature: its name, its role, its index
/// among the pins of that role, its server type (none for a control pin)
/// and the structure it holds, if any.
#[derive(Clone, Debug)]
pub struct CompositePin {
    pub name: String,
    pub kind: PinKind,
    pub index: i32,
    pub var_type: Option<ServerTypeId>,
    pub struct_id: Option<i64>,
}

impl CompositePin {
    /// A control pin.
    pub fn flow(name: String, kind: PinKind, index: i32) -> (r: Self)
        ensures
            r.name == name,
            r.kind == kind,
            r.index == index,
            r.var_type is None,
            r.struct_id is None,
    {
        Self { name, kind, index, var_type: None, struct_id: None }
    }

    /// A value pin of server type `var_type`.
    pub fn param(name: String, kind: PinKind, index: i32, var_type: ServerTypeId) -> (r: Self)
        ensures
            r.name == name,
            r.kind == kind,
            r.index == index,
            r.var_type == Some(var_type),
            r.struct_id is None,
    {
        Self { name, kind, index, var_type: Some(var_type), struct_id: None }
    }

    /// A value pin holding the structure `struct_id`.
    pub fn struct_param(name: String, kind: PinKind, index: i32, struct_id: i64) -> (r: Self)
        ensures
            r.name == name,
            r.kind == kind,
            r.index == index,
            r.var_type == Some(ServerTypeId::SStruct),
            r.struct_id == Some(struct_id),
    {
        Self { name, kind, index, var_type: Some(ServerTypeId::SStruct), struct_id: Some(struct_id) }
    }
}

/// The server type code of a pin, if it has a type.
pub open spec fn var_type_code(t: Option<ServerTypeId>) -> Option<i32> {
    match t {
        Some(x) => Some(x.spec_code()),
        None => None,
    }
}

/// `r` is the interface of the pin `p`: hidden, numbered by its index,
/// and typed where it has a type or a structure.
pub open spec fn composite_pin_ok(r: PinInterface, p: CompositePin) -> bool {
    &&& r.name@ == p.name@
    &&& r.visibility_mask == 0
    &&& r.sig == Some(PinSignature { kind: p.kind, index: p.index })
    &&& r.type_info == (if p.var_type is Some || p.struct_id is Some {
        Some(
            TypeInfo {
                ui_class: None,
                var_type_shell: var_type_code(p.var_type),
                var_type_kernel: var_type_code(p.var_type),
                detail: match p.struct_id {
                    Some(id) => Some(TypeInfoDetail::StructId(id)),
                    None => None,
                },
            },
        )
    } else {
        None
    })
    &&& r.meta_sig_type is None
    &&& r.persistent_pin_uid == p.index
}

impl CompositePin {
    fn encode_pin(&self) -> (r: PinInterface)
        ensures
            composite_pin_ok(r, *self),
    {
        let var_code = match self.var_type {
            Some(t) => Some(t.code()),
            None => None,
        };
        let type_info = if self.var_type.is_some() || self.struct_id.is_some() {
            Some(
                TypeInfo {
                    ui_class: None,
                    var_type_shell: var_code,
                    var_type_kernel: var_code,
                    detail: match self.struct_id {
                        Some(id) => Some(TypeInfoDetail::StructId(id)),
                        None => None,
                    },
                },
            )
        } else {
            None
        };
        PinInterface {
            name: self.name.clone(),
            visibility_mask: 0,
            sig: Some(PinSignature { kind: self.kind, index: self.index }),
            type_info,
            meta_sig_type: None,
            persistent_pin_uid: self.index,
        }
    }
}

/// A composite node: its name and description, the graph that implements
/// it (none for a node that the system generates), its pins, and how it is
/// implemented.
#[derive(Clone, Debug)]
pub struct CompositeNode {
    pub name: String,
    pub description: String,
    pub graph_ref: Option<Identifier>,
    pub pins: Vec<CompositePin>,
    pub implementation: Option<ImplCategory>,
}

impl CompositeNode {
    /// A composite node that the user defines, implemented by the graph
    /// `graph_ref`, without pins yet.
    pub fn new_user_composite(name: String, graph_ref: Identifier) -> (r: Self)
        ensures
            r.name == name,
            r.description@.len() == 0,
            r.graph_ref == Some(graph_ref),
            r.pins@.len() == 0,
            r.implementation == Some(ImplCategory::Composite),
    {
        Self {
            name,
            description: String::new(),
            graph_ref: Some(graph_ref),
            pins: Vec::new(),
            implementation: Some(ImplCategory::Composite),
        }
    }
}

/// The pins of `pins` that have the role `kind`, in order.
pub open spec fn pins_of_role(pins: Seq<CompositePin>, kind: PinKind) -> Seq<CompositePin> {
    pins.filter(|p: CompositePin| p.kind == kind)
}

/// The pins of `pins` that are not control or value pins, in order.
pub open spec fn special_pins(pins: Seq<CompositePin>) -> Seq<CompositePin> {
    pins.filter(
        |p: CompositePin|
            p.kind != PinKind::InControl && p.kind != PinKind::OutControl && p.kind != PinKind::InValue
                && p.kind != PinKind::OutValue,
    )
}

/// `rs` are the interfaces of `ps`, in order.
pub open spec fn composite_pins_ok(rs: Seq<PinInterface>, ps: Seq<CompositePin>) -> bool {
    &&& rs.len() == ps.len()
    &&& forall|i: int| 0 <= i < rs.len() ==> composite_pin_ok(#[trigger] rs[i], ps[i])
}

/// The identifier of the shape and of the implementation of the composite
/// node numbered `id`.
pub open spec fn composite_stub(id: i64) -> Identifier {
    Identifier {
        source: Source::SystemDefined,
        category: Category::NodeDecl,
        kind: AssetKind::GeneratedStub,
        guid: 0,
        runtime_id: id,
    }
}

/// `a` is the asset of the composite node `c` numbered `id`: its pins
/// sorted by role, each role in the order of the pins.
pub open spec fn composite_asset_ok(a: AssetData, c: CompositeNode, id: i64) -> bool {
    &&& a.id == Some(
        Identifier {
            source: Source::UserDefined,
            category: Category::NodeDecl,
            kind: AssetKind::CompositeGraph,
            guid: id,
            runtime_id: id,
        },
    )
    &&& a.references@.len() == 0
    &&& a.name@ == c.name@
    &&& a.asset_type == AssetType::CompositeNodeDecl
    &&& a.payload matches Payload::InterfaceData(ni) && {
        &&& ni.id == Some(
            InterfaceSignature {
                shell_ref: Some(composite_stub(id)),
                kernel_ref: Some(composite_stub(id)),
                graph_ref: c.graph_ref,
            },
        )
        &&& composite_pins_ok(ni.inflows@, pins_of_role(c.pins@, PinKind::InControl))
        &&& composite_pins_ok(ni.outflows@, pins_of_role(c.pins@, PinKind::OutControl))
        &&& composite_pins_ok(ni.inputs@, pins_of_role(c.pins@, PinKind::InValue))
        &&& composite_pins_ok(ni.outputs@, pins_of_role(c.pins@, PinKind::OutValue))
        &&& composite_pins_ok(ni.meta_pins@, special_pins(c.pins@))
        &&& ni.implementation == match c.implementation {
            Some(cat) => Some(InterfaceImplementation { category: cat, template: None }),
            None => None,
        }
        &&& ni.name@ == c.name@
        &&& ni.description@ == c.description@
        &&& ni.template_root == TemplateRoot::UserComposite
        &&& ni.template_sub == TemplateSub::NoSub
    }
}

/// The buckets hold the interfaces of the first `n` pins, by role.
spec fn sorted_upto(
    inflows: Seq<PinInterface>,
    outflows: Seq<PinInterface>,
    inputs: Seq<PinInterface>,
    outputs: Seq<PinInterface>,
    meta: Seq<PinInterface>,
    pins: Seq<CompositePin>,
    n: int,
) -> bool {
    let done = pins.subrange(0, n);
    &&& composite_pins_ok(inflows, pins_of_role(done, PinKind::InControl))
    &&& composite_pins_ok(outflows, pins_of_role(done, PinKind::OutControl))
    &&& composite_pins_ok(inputs, pins_of_role(done, PinKind::InValue))
    &&& composite_pins_ok(outputs, pins_of_role(done, PinKind::OutValue))
    &&& composite_pins_ok(meta, special_pins(done))
}

proof fn lemma_push_pin_ok(rs: Seq<PinInterface>, ps: Seq<CompositePin>, r: PinInterface, p: CompositePin)
    requires
        composite_pins_ok(rs, ps),
        composite_pin_ok(r, p),
    ensures
        composite_pins_ok(rs.push(r), ps.push(p)),
{
    assert forall|i: int| 0 <= i < rs.len() + 1 implies composite_pin_ok(#[trigger] rs.push(r)[i], ps.push(p)[i]) by {
        if i < rs.len() {
            assert(rs.push(r)[i] == rs[i]);
            assert(ps.push(p)[i] == ps[i]);
        }
    }
}

impl CompositeNode {
    /// The composite node as the asset numbered `id`.
    pub fn encode(&self, id: i64) -> (r: AssetData)
        ensures
            composite_asset_ok(r, *self, id),
    {
        let node_id = Identifier {
            source: Source::SystemDefined,
            category: Category::NodeDecl,
            kind: AssetKind::GeneratedStub,
            guid: 0,
            runtime_id: id,
        };
        let mut inflows: Vec<PinInterface> = Vec::new();
        let mut outflows: Vec<PinInterface> = Vec::new();
        let mut inputs: Vec<PinInterface> = Vec::new();
        let mut outputs: Vec<PinInterface> = Vec::new();
        let mut meta_pins: Vec<PinInterface> = Vec::new();
        let ghost pins = self.pins@;
        let mut i: usize = 0;
        while i < self.pins.len()
            invariant
                i <= pins.len(),
                pins == self.pins@,
                sorted_upto(inflows@, outflows@, inputs@, outputs@, meta_pins@, pins, i as int),
            decreases pins.len() - i,
        {
            let p = &self.pins[i];
            let pi = p.encode_pin();
            let ghost done = pins.subrange(0, i as int);
            let ghost next = pins.subrange(0, i + 1);
            proof {
                assert(next =~= done.push(pins[i as int]));
                reveal_with_fuel(Seq::filter, 1);
                assert(next.drop_last() =~= done);
            }
            match p.kind {
                PinKind::InControl => {
                    proof {
                        lemma_push_pin_ok(inflows@, pins_of_role(done, PinKind::InControl), pi, *p);
                    }
                    inflows.push(pi);
                },
                PinKind::OutControl => {
                    proof {
                        lemma_push_pin_ok(outflows@, pins_of_role(done, PinKind::OutControl), pi, *p);
                    }
                    outflows.push(pi);
                },
                PinKind::InValue => {
                    proof {
                        lemma_push_pin_ok(inputs@, pins_of_role(done, PinKind::InValue), pi, *p);
                    }
                    inputs.push(pi);
                },
                PinKind::OutValue => {
                    proof {
                        lemma_push_pin_ok(outputs@, pins_of_role(done, PinKind::OutValue), pi, *p);
                    }
                    outputs.push(pi);
                },
                _ => {
                    proof {
                        lemma_push_pin_ok(meta_pins@, special_pins(done), pi, *p);
                    }
                    meta_pins.push(pi);
                },
            }
            i = i + 1;
        }
        proof {
            assert(pins.subrange(0, pins.len() as int) =~= pins);
        }
        let implementation = match self.implementation {
            Some(cat) => Some(InterfaceImplementation { category: cat, template: None }),
            None => None,
        };
        let interface = NodeInterface {
            id: Some(
                InterfaceSignature { shell_ref: Some(node_id), kernel_ref: Some(node_id), graph_ref: self.graph_ref },
            ),
            inflows,
            outflows,
            inputs,
            outputs,
            meta_pins,
            implementation,
            name: self.name.clone(),
            description: self.description.clone(),
            template_root: TemplateRoot::UserComposite,
            template_sub: TemplateSub::NoSub,
        };
        AssetData {
            id: Some(
                Identifier {
                    source: Source::UserDefined,
                    category: Category::NodeDecl,
                    kind: AssetKind::CompositeGraph,
                    guid: id,
                    runtime_id: id,
                },
            ),
            references: Vec::new(),
            name: self.name.clone(),
            asset_type: AssetType::CompositeNodeDecl,
            payload: Payload::InterfaceData(interface),
        }
    }
}

} // verus!
