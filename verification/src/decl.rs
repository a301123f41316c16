//! Node declarations: the interface of a node that the editor can place,
//! with its pins by role, and the node kind that uses it.

use vstd::prelude::*;

use crate::bundle::{allocated, bundle_wf, counters, AssetBundle, AssetRef};
use crate::graph::{Implementation, NodeId, NodeKind};
use crate::ids::{AssetKind, Category, Identifier, Source};
use crate::message::{
    AssetData, AssetType, InterfaceImplementation, InterfaceSignature, NodeInterface, Payload,
    PinInterface, PinKind, PinSignature, TemplateRoot, TemplateSub, TypeInfo,
};
use crate::value::{info_detail_of, server_type_of, widget_of, AnyValue};

verus! {

/// Something for each role of pin: control in, control out, value in,
/// value out.
pub struct PinTable<T> {
    pub in_control: Vec<T>,
    pub out_control: Vec<T>,
    pub in_value: Vec<T>,
    pub out_value: Vec<T>,
}

/// A pin of a declaration: its name, its type (none for a pin without
/// value) and the signature it stands for.
pub struct DeclPin {
    pub name: String,
    pub kind: Option<AnyValue>,
    pub meta: Option<PinSignature>,
}

/// The declaration of a node: its name, its description, its pins by
/// role, what implements it, its template, and the assets it refers to.
pub struct NodeDecl {
    pub name: String,
    pub description: String,
    pub pins: PinTable<DeclPin>,
    pub implementation: InterfaceImplementation,
    pub template_root: TemplateRoot,
    pub template_sub: TemplateSub,
    pub references: Vec<Identifier>,
}

/// How the interface shows the type of a value of type `x`.
pub open spec fn type_info_of(x: AnyValue) -> TypeInfo {
    TypeInfo {
        ui_class: Some(widget_of(server_type_of(x))),
        var_type_shell: Some(server_type_of(x).spec_code()),
        var_type_kernel: Some(server_type_of(x).spec_code()),
        detail: info_detail_of(x),
    }
}

/// `p` is the interface of pin `index` of role `kind`, declared by `pin`,
/// numbered `uid`.
pub open spec fn pin_interface_ok(p: PinInterface, kind: PinKind, index: int, pin: DeclPin, uid: int) -> bool {
    &&& p.name@ == pin.name@
    &&& p.visibility_mask == 1
    &&& p.sig == Some(PinSignature { kind, index: index as i32 })
    &&& p.type_info == (match pin.kind {
        Some(x) => Some(type_info_of(x)),
        None => None::<TypeInfo>,
    })
    &&& p.meta_sig_type == pin.meta
    &&& p.persistent_pin_uid == uid
}

/// `ps` are the interfaces of `pins`, pins of role `kind`, numbered from
/// `first + 1` on.
pub open spec fn pins_ok(ps: Seq<PinInterface>, kind: PinKind, pins: Seq<DeclPin>, first: int) -> bool {
    &&& ps.len() == pins.len()
    &&& forall|i: int|
        0 <= i < ps.len() ==> pin_interface_ok(#[trigger] ps[i], kind, i, pins[i], first + i + 1)
}

/// The identifier of the shape and of the implementation of the node that
/// the declaration `id` declares.
pub open spec fn stub_of(id: Identifier) -> Identifier {
    Identifier {
        source: Source::SystemDefined,
        category: Category::ServerBasic,
        kind: AssetKind::GeneratedStub,
        guid: 0,
        runtime_id: id.guid,
    }
}

/// The identifier with every part zero.
pub open spec fn zero_identifier() -> Identifier {
    Identifier {
        source: Source::Unspecified,
        category: Category::Default,
        kind: AssetKind::Unspecified,
        guid: 0,
        runtime_id: 0,
    }
}

/// The graph that implements a declaration: the first asset it refers to,
/// if that is a node graph; the zero identifier otherwise.
pub open spec fn graph_ref_of(refs: Seq<Identifier>) -> Identifier {
    if refs.len() > 0 && refs[0].category == Category::ServerNodeGraph {
        Identifier {
            source: Source::UserDefined,
            category: Category::ServerBasic,
            kind: AssetKind::CompositeGraph,
            guid: 0,
            runtime_id: refs[0].guid,
        }
    } else {
        zero_identifier()
    }
}

/// How many pins the declaration has.
pub open spec fn pin_total(d: NodeDecl) -> int {
    (d.pins.in_control@.len() + d.pins.out_control@.len() + d.pins.in_value@.len()
        + d.pins.out_value@.len()) as int
}

/// `ni` is the interface of the declaration `d` registered as `id`: its
/// pins numbered in turn from the control inputs to the value outputs.
pub open spec fn interface_ok(ni: NodeInterface, id: Identifier, d: NodeDecl) -> bool {
    let a = d.pins.in_control@.len() as int;
    let b = a + d.pins.out_control@.len();
    let c = b + d.pins.in_value@.len();
    &&& ni.id == Some(
        InterfaceSignature {
            shell_ref: Some(stub_of(id)),
            kernel_ref: Some(stub_of(id)),
            graph_ref: Some(graph_ref_of(d.references@)),
        },
    )
    &&& pins_ok(ni.inflows@, PinKind::InControl, d.pins.in_control@, 0)
    &&& pins_ok(ni.outflows@, PinKind::OutControl, d.pins.out_control@, a)
    &&& pins_ok(ni.inputs@, PinKind::InValue, d.pins.in_value@, b)
    &&& pins_ok(ni.outputs@, PinKind::OutValue, d.pins.out_value@, c)
    &&& ni.meta_pins@.len() == 0
    &&& ni.implementation == Some(d.implementation)
    &&& ni.name@ == d.name@
    &&& ni.description@ == d.description@
    &&& ni.template_root == d.template_root
    &&& ni.template_sub == d.template_sub
}

/// `a` is the asset of the declaration `d` registered as `id`.
pub open spec fn decl_asset_ok(a: AssetData, id: Identifier, d: NodeDecl) -> bool {
    &&& a.id == Some(id)
    &&& a.name@ == d.name@
    &&& a.asset_type == AssetType::CompositeNodeDecl
    &&& a.references@ == d.references@
    &&& a.payload matches Payload::InterfaceData(ni) && interface_ok(ni, id, d)
}

/// `k` is the kind of the nodes that the declaration numbered `id`
/// declares, with the given pin counts and value types.
pub open spec fn decl_kind_ok(
    k: NodeKind,
    id: i64,
    controls_in_num: usize,
    controls_out_num: usize,
    values_in_types: Seq<Option<AnyValue>>,
    values_out_types: Seq<AnyValue>,
) -> bool {
    &&& k.id == (NodeId::Low { kind: AssetKind::GeneratedStub, id })
    &&& k.kernel_id == id
    &&& k.controls_in_num == controls_in_num
    &&& k.controls_out_num == controls_out_num
    &&& k.values_in_types@ == values_in_types
    &&& k.values_out_types@ == values_out_types
    &&& k.selectors_in@.len() == values_in_types.len()
    &&& k.selectors_out@.len() == values_out_types.len()
    &&& forall|i: int| 0 <= i < k.selectors_in@.len() ==> k.selectors_in@[i] is None
    &&& forall|i: int| 0 <= i < k.selectors_out@.len() ==> k.selectors_out@[i] is None
    &&& k.imps_out@.len() == values_out_types.len()
    &&& forall|i: int| 0 <= i < k.imps_out@.len() ==> k.imps_out@[i] == Implementation::Primitive
    &&& k.references@ == seq![
        Identifier {
            source: Source::Unspecified,
            category: Category::NodeDecl,
            kind: AssetKind::Unspecified,
            guid: id,
            runtime_id: 0,
        },
    ]
}

/// The kind of the nodes that the declaration numbered `id` declares.
pub fn node_decl(
    id: i64,
    controls_in_num: usize,
    controls_out_num: usize,
    values_in_types: Vec<Option<AnyValue>>,
    values_out_types: Vec<AnyValue>,
) -> (r: NodeKind)
    ensures
        decl_kind_ok(
            r,
            id,
            controls_in_num,
            controls_out_num,
            values_in_types@,
            values_out_types@,
        ),
{
    let mut result = NodeKind::full(
        NodeId::Low { kind: AssetKind::GeneratedStub, id },
        id,
        controls_in_num,
        controls_out_num,
        values_in_types,
        values_out_types,
    );
    let mut references: Vec<Identifier> = Vec::new();
    references.push(
        Identifier {
            source: Source::Unspecified,
            category: Category::NodeDecl,
            kind: AssetKind::Unspecified,
            guid: id,
            runtime_id: 0,
        },
    );
    result.references = references;
    result
}

fn encode_pins(pins: &Vec<DeclPin>, kind: PinKind, first: i32) -> (r: Vec<PinInterface>)
    requires
        0 <= first,
        first + pins@.len() <= i32::MAX,
    ensures
        pins_ok(r@, kind, pins@, first as int),
{
    let mut r: Vec<PinInterface> = Vec::new();
    let mut i: usize = 0;
    while i < pins.len()
        invariant
            i <= pins@.len(),
            0 <= first,
            first + pins@.len() <= i32::MAX,
            r@.len() == i,
            forall|j: int|
                0 <= j < i ==> pin_interface_ok(#[trigger] r@[j], kind, j, pins@[j], first + j + 1),
        decreases pins@.len() - i,
    {
        let pin = &pins[i];
        let type_info = match &pin.kind {
            Some(x) => Some(
                TypeInfo {
                    ui_class: Some(x.get_widget_type()),
                    var_type_shell: Some(x.get_server_type().code()),
                    var_type_kernel: Some(x.get_server_type().code()),
                    detail: x.encode_type_detail(),
                },
            ),
            None => None,
        };
        let index = i as i32;
        let uid = first + index + 1;
        r.push(
            PinInterface {
                name: pin.name.clone(),
                visibility_mask: 1,
                sig: Some(PinSignature { kind, index }),
                type_info,
                meta_sig_type: pin.meta,
                persistent_pin_uid: uid,
            },
        );
        i = i + 1;
    }
    r
}

/// The types of the pins, in order.
fn take_kinds(pins: Vec<DeclPin>) -> (r: Vec<Option<AnyValue>>)
    ensures
        r@ == pins@.map_values(|p: DeclPin| p.kind),
{
    let ghost all = pins@;
    let mut rest = pins;
    let mut r: Vec<Option<AnyValue>> = Vec::new();
    let n = rest.len();
    let mut i: usize = 0;
    while i < n
        invariant
            n == all.len(),
            i <= n,
            rest@ == all.subrange(i as int, n as int),
            r@ == all.subrange(0, i as int).map_values(|p: DeclPin| p.kind),
        decreases n - i,
    {
        let p = rest.remove(0);
        assert(p == all[i as int]);
        r.push(p.kind);
        assert(rest@ =~= all.subrange(i + 1, n as int));
        assert(all.subrange(0, i + 1).map_values(|p: DeclPin| p.kind) =~= all.subrange(
            0,
            i as int,
        ).map_values(|p: DeclPin| p.kind).push(all[i as int].kind));
        i = i + 1;
    }
    assert(all.subrange(0, n as int) =~= all);
    r
}

/// The types of the pins, which all have one, in order.
fn take_types(pins: Vec<DeclPin>) -> (r: Vec<AnyValue>)
    requires
        forall|i: int| 0 <= i < pins@.len() ==> (#[trigger] pins@[i]).kind is Some,
    ensures
        r@ == pins@.map_values(|p: DeclPin| p.kind->0),
{
    let ghost all = pins@;
    let mut rest = pins;
    let mut r: Vec<AnyValue> = Vec::new();
    let n = rest.len();
    let mut i: usize = 0;
    while i < n
        invariant
            n == all.len(),
            i <= n,
            rest@ == all.subrange(i as int, n as int),
            forall|j: int| 0 <= j < all.len() ==> (#[trigger] all[j]).kind is Some,
            r@ == all.subrange(0, i as int).map_values(|p: DeclPin| p.kind->0),
        decreases n - i,
    {
        let p = rest.remove(0);
        assert(p == all[i as int]);
        let t = match p.kind {
            Some(t) => t,
            None => {
                assert(false);
                AnyValue::Bool(crate::value::ValueBool(false))
            },
        };
        r.push(t);
        assert(rest@ =~= all.subrange(i + 1, n as int));
        assert(all.subrange(0, i + 1).map_values(|p: DeclPin| p.kind->0) =~= all.subrange(
            0,
            i as int,
        ).map_values(|p: DeclPin| p.kind->0).push(all[i as int].kind->0));
        i = i + 1;
    }
    assert(all.subrange(0, n as int) =~= all);
    r
}

impl NodeDecl {
    /// Adds the declaration to `bundle` under a new identifier of the
    /// declaration category, and returns that identifier with the kind of
    /// the nodes it declares. It panics on a value output without type.
    pub fn apply(self, bundle: &mut AssetBundle) -> (r: AssetRef<NodeKind>)
        requires
            pin_total(self) < i32::MAX,
            forall|i: int|
                0 <= i < self.pins.out_value@.len() ==> (#[trigger] self.pins.out_value@[i]).kind is Some,
            bundle_wf(*old(bundle)),
            counters(old(bundle).allocators@).contains_key(Category::NodeDecl),
            counters(old(bundle).allocators@)[Category::NodeDecl] < i64::MAX,
        ensures
            r.root == allocated(
                Category::NodeDecl,
                AssetKind::Basic,
                counters(old(bundle).allocators@)[Category::NodeDecl],
            ),
            counters(final(bundle).allocators@) == counters(old(bundle).allocators@).insert(
                Category::NodeDecl,
                (r.root.guid + 1) as i64,
            ),
            final(bundle).assets@.len() == old(bundle).assets@.len() + 1,
            final(bundle).assets@.drop_last() == old(bundle).assets@,
            decl_asset_ok(final(bundle).assets@.last(), r.root, self),
            decl_kind_ok(
                r.data,
                r.root.guid,
                self.pins.in_control@.len() as usize,
                self.pins.out_control@.len() as usize,
                self.pins.in_value@.map_values(|p: DeclPin| p.kind),
                self.pins.out_value@.map_values(|p: DeclPin| p.kind->0),
            ),
            final(bundle).mode == old(bundle).mode,
            final(bundle).primary@ == old(bundle).primary@,
            bundle_wf(*final(bundle)),
    {
        let ghost d = self;
        let id = bundle.alloc_id(Category::NodeDecl, AssetKind::Basic);
        let stub = Identifier {
            source: Source::SystemDefined,
            category: Category::ServerBasic,
            kind: AssetKind::GeneratedStub,
            guid: 0,
            runtime_id: id.guid,
        };
        let graph_ref = if self.references.len() > 0
            && self.references[0].category == Category::ServerNodeGraph {
            Identifier {
                source: Source::UserDefined,
                category: Category::ServerBasic,
                kind: AssetKind::CompositeGraph,
                guid: 0,
                runtime_id: self.references[0].guid,
            }
        } else {
            Identifier {
                source: Source::Unspecified,
                category: Category::Default,
                kind: AssetKind::Unspecified,
                guid: 0,
                runtime_id: 0,
            }
        };
        let a = self.pins.in_control.len() as i32;
        let b = a + self.pins.out_control.len() as i32;
        let c = b + self.pins.in_value.len() as i32;
        let inflows = encode_pins(&self.pins.in_control, PinKind::InControl, 0);
        let outflows = encode_pins(&self.pins.out_control, PinKind::OutControl, a);
        let inputs = encode_pins(&self.pins.in_value, PinKind::InValue, b);
        let outputs = encode_pins(&self.pins.out_value, PinKind::OutValue, c);
        let interface = NodeInterface {
            id: Some(
                InterfaceSignature {
                    shell_ref: Some(stub),
                    kernel_ref: Some(stub),
                    graph_ref: Some(graph_ref),
                },
            ),
            inflows,
            outflows,
            inputs,
            outputs,
            meta_pins: Vec::new(),
            implementation: Some(self.implementation),
            name: self.name.clone(),
            description: self.description,
            template_root: self.template_root,
            template_sub: self.template_sub,
        };
        let controls_in_num = self.pins.in_control.len();
        let controls_out_num = self.pins.out_control.len();
        let values_in_types = take_kinds(self.pins.in_value);
        let values_out_types = take_types(self.pins.out_value);
        bundle.push(
            AssetData {
                id: Some(id),
                references: self.references,
                name: self.name,
                asset_type: AssetType::CompositeNodeDecl,
                payload: Payload::InterfaceData(interface),
            },
        );
        let data = node_decl(id.guid, controls_in_num, controls_out_num, values_in_types, values_out_types);
        AssetRef { root: id, data }
    }
}

} // verus!
