//! Encoding of node graphs: every node becomes a node instance whose pins
//! carry their values, their types and their links to other nodes.

use vstd::prelude::*;

use crate::graph::{
    Connection, Implementation, Link, Node, NodeGraph, NodeRef, NodeView, ValueIn, NODE_ID_BEGIN,
};
use crate::bundle::{allocated, bundle_wf, counters, AssetBundle};
use crate::ids::{AssetKind, Category, Identifier, Side, Source};
use crate::message::{
    AssetData, AssetType, ClientType, DynamicTypeMetadata, GraphVariableData, InterfaceMapping,
    NodeConnection, Payload,
    NodeGraphData, Schema, NodeInstance, PinData, PinKind, PinSignature,
    PolymorphicValue, ServerType, Storage, StructReference, TypeDefinition, TypeDetail,
    TypedValue, WidgetType,
};
use crate::raw_graph::variable_schema;
use crate::value::{
    backend, backend_of, client_type_of, encodable, server_type_of, storage_ok, struct_id_of,
    type_detail_of, typed_ok, widget_of, AnyValue,
};

verus! {

// ---------------------------------------------------------------------------
// Links.
// ---------------------------------------------------------------------------

/// The number that an implementation kind has on the wire.
pub open spec fn imp_code(imp: Implementation) -> i32 {
    match imp {
        Implementation::Primitive => 0,
        Implementation::Struct => 1,
    }
}

fn implementation_code(imp: Implementation) -> (r: i32)
    ensures
        r == imp_code(imp),
{
    match imp {
        Implementation::Primitive => 0,
        Implementation::Struct => 1,
    }
}

/// The number of node `k` in an encoded graph.
pub open spec fn node_number(k: usize) -> i32 {
    ((k as i32) + NODE_ID_BEGIN) as i32
}

/// Different nodes have different numbers in an encoded graph, and the
/// number of a node decodes to its key.
pub proof fn lemma_node_numbers_distinct(a: usize, b: usize)
    requires
        a < i32::MAX,
        b < i32::MAX,
        a != b,
    ensures
        node_number(a) != node_number(b),
        (node_number(a) - NODE_ID_BEGIN) as usize == a,
{
}

/// The encoded end of a link to pin `c`, a pin of role `kind`.
pub open spec fn target_of(c: Connection, kind: PinKind) -> NodeConnection {
    NodeConnection {
        target_node_index: node_number(c.0.0),
        target_pin_shell: Some(PinSignature { kind, index: c.1 as i32 }),
        target_pin_kernel: Some(PinSignature { kind, index: c.1 as i32 }),
    }
}

/// The encoded ends of the links to nodes among `links`, in order; links
/// to the graph's interface have none.
pub open spec fn targets(links: Seq<Link>, kind: PinKind) -> Seq<NodeConnection>
    decreases links.len(),
{
    if links.len() == 0 {
        Seq::empty()
    } else {
        let rest = targets(links.drop_last(), kind);
        match links.last() {
            Link::Connection(c) => rest.push(target_of(c, kind)),
            Link::Export(_) => rest,
        }
    }
}

/// Every node that `links` reach has a number in an encoded graph.
pub open spec fn links_encodable(links: Seq<Link>) -> bool {
    forall|t: int|
        0 <= t < links.len() ==> (#[trigger] links[t] matches Link::Connection(c) ==> (c.0.0 as i32)
            < i32::MAX)
}

/// The links of an input: its one link, if it has one.
pub open spec fn opt_links(l: Option<Link>) -> Seq<Link> {
    match l {
        Some(x) => seq![x],
        None => Seq::empty(),
    }
}

fn encode_targets(links: &Vec<Link>, kind: PinKind) -> (r: Vec<NodeConnection>)
    requires
        links_encodable(links@),
    ensures
        r@ == targets(links@, kind),
{
    let mut r: Vec<NodeConnection> = Vec::new();
    let mut i: usize = 0;
    while i < links.len()
        invariant
            i <= links@.len(),
            links_encodable(links@),
            r@ == targets(links@.subrange(0, i as int), kind),
        decreases links@.len() - i,
    {
        assert(links@.subrange(0, i + 1).drop_last() =~= links@.subrange(0, i as int));
        let l = links[i];
        assert(l == links@[i as int]);
        match l {
            Link::Connection(c) => {
                let index = c.1 as i32;
                let s = PinSignature { kind, index };
                r.push(
                    NodeConnection {
                        target_node_index: c.0.encode(),
                        target_pin_shell: Some(s),
                        target_pin_kernel: Some(s),
                    },
                );
            },
            Link::Export(_) => {},
        }
        i = i + 1;
    }
    assert(links@.subrange(0, links@.len() as int) =~= links@);
    r
}

// ---------------------------------------------------------------------------
// Values of pins.
// ---------------------------------------------------------------------------

/// The wire number of the type of `v` on `side`.
pub open spec fn type_code(v: AnyValue, side: Side) -> i32 {
    match side {
        Side::Server => server_type_of(v).spec_code(),
        Side::Client => client_type_of(v).spec_code(),
    }
}

/// The type that a value with a type selector shows: the type of the
/// chosen value, without schema.
pub open spec fn selector_detail(v: AnyValue, side: Side) -> TypeDetail {
    match side {
        Side::Server => TypeDetail::ServerSide(
            ServerType { type_tag: server_type_of(v).spec_code(), implementation: 0, schema: None },
        ),
        Side::Client => TypeDetail::ClientSide(ClientType { type_tag: client_type_of(v).spec_code() }),
    }
}

/// A server type detail with its implementation set to `imp`.
pub open spec fn with_imp(d: TypeDetail, imp: Implementation) -> TypeDetail {
    match d {
        TypeDetail::ServerSide(st) => TypeDetail::ServerSide(
            ServerType { implementation: imp_code(imp), ..st },
        ),
        TypeDetail::ClientSide(c) => TypeDetail::ClientSide(c),
    }
}

/// `a` is the encoding of `v`, set or not, for `side`, with the
/// implementation `imp`.
pub open spec fn typed_imp_ok(
    a: TypedValue,
    v: AnyValue,
    is_set: bool,
    side: Side,
    imp: Implementation,
) -> bool {
    &&& a.widget == widget_of(server_type_of(v))
    &&& a.is_set == is_set
    &&& a.type_def == Some(
        TypeDefinition {
            backend: backend_of(side),
            type_detail: Some(with_imp(type_detail_of(v, side), imp)),
        },
    )
    &&& if is_set {
        storage_ok(a.storage, v, side)
    } else {
        a.storage is None
    }
}

/// The editor metadata of a polymorphic value bound to structure `id`.
pub open spec fn struct_meta(id: i64) -> DynamicTypeMetadata {
    DynamicTypeMetadata {
        version: 1,
        container_style: WidgetType::StructBlock,
        schema_binding: Some(StructReference { schema_id: id }),
    }
}

/// `tv` is the value of a pin holding `v` (set or not), with type
/// selector `s`, declared type `kind` and implementation `imp`: without
/// selector, the plain encoding when set and nothing otherwise; with one,
/// a polymorphic value that chooses `s` and holds the encoding of `v`.
pub open spec fn selected_ok(
    tv: Option<TypedValue>,
    v: AnyValue,
    is_set: bool,
    s: Option<i32>,
    kind: AnyValue,
    imp: Implementation,
    side: Side,
) -> bool {
    match s {
        None => if is_set {
            tv matches Some(t) && typed_ok(t, v, true, side)
        } else {
            tv is None
        },
        Some(index) => match tv {
            Some(t) => {
                &&& t.widget == WidgetType::TypeSelector
                &&& t.is_set
                &&& t.type_def == Some(
                    TypeDefinition {
                        backend: backend_of(side),
                        type_detail: Some(selector_detail(v, side)),
                    },
                )
                &&& match t.storage {
                    Some(Storage::ValPoly(p)) => {
                        &&& p.chosen_type_index == index
                        &&& p.actual_value matches Some(a) && typed_imp_ok(*a, v, is_set, side, imp)
                        &&& p.extra_meta == (if imp == Implementation::Struct {
                            Some(struct_meta(struct_id_of(kind)->0))
                        } else {
                            None::<DynamicTypeMetadata>
                        })
                    },
                    _ => false,
                }
            },
            None => false,
        },
    }
}

/// Sets the implementation of a server type detail.
fn set_implementation(tv: &mut TypedValue, imp: Implementation)
    ensures
        final(tv).widget == old(tv).widget,
        final(tv).is_set == old(tv).is_set,
        final(tv).storage == old(tv).storage,
        final(tv).type_def == (match old(tv).type_def {
            Some(TypeDefinition { backend, type_detail: Some(d) }) => Some(
                TypeDefinition { backend, type_detail: Some(with_imp(d, imp)) },
            ),
            other => other,
        }),
{
    match tv.type_def {
        Some(TypeDefinition { backend, type_detail: Some(TypeDetail::ServerSide(st)) }) => {
            let code = implementation_code(imp);
            tv.type_def = Some(
                TypeDefinition {
                    backend,
                    type_detail: Some(TypeDetail::ServerSide(ServerType { implementation: code, ..st })),
                },
            );
        },
        _ => {},
    }
}

fn encode_selected(
    v: &AnyValue,
    is_set: bool,
    s: Option<i32>,
    kind: &AnyValue,
    imp: Implementation,
    side: Side,
) -> (r: Option<TypedValue>)
    requires
        is_set ==> encodable(*v),
        s is Some && imp == Implementation::Struct ==> kind is Struct,
    ensures
        selected_ok(r, *v, is_set, s, *kind, imp, side),
{
    match s {
        None => if is_set {
            Some(v.encode_typed(true, side))
        } else {
            None
        },
        Some(index) => {
            let mut inner = v.encode_typed(is_set, side);
            set_implementation(&mut inner, imp);
            let extra_meta = match imp {
                Implementation::Struct => match kind {
                    AnyValue::Struct(st) => Some(
                        DynamicTypeMetadata {
                            version: 1,
                            container_style: WidgetType::StructBlock,
                            schema_binding: Some(StructReference { schema_id: st.get_struct_id() }),
                        },
                    ),
                    _ => None,
                },
                Implementation::Primitive => None,
            };
            let detail = match side {
                Side::Server => TypeDetail::ServerSide(
                    ServerType { type_tag: v.get_server_type().code(), implementation: 0, schema: None },
                ),
                Side::Client => TypeDetail::ClientSide(
                    ClientType { type_tag: v.get_client_type().code() },
                ),
            };
            let poly = PolymorphicValue {
                chosen_type_index: index,
                actual_value: Some(Box::new(inner)),
                extra_meta,
            };
            Some(
                TypedValue {
                    widget: WidgetType::TypeSelector,
                    is_set: true,
                    type_def: Some(
                        TypeDefinition { backend: backend(side), type_detail: Some(detail) },
                    ),
                    storage: Some(Storage::ValPoly(Box::new(poly))),
                },
            )
        },
    }
}

/// `p` is value pin `i` (kernel index `kernel`) of role `k1`: it holds the
/// value `def` or, without one, shows the type `kind`; it lists the
/// targets of `links`, pins of role `k2`.
pub open spec fn value_pin_ok(
    p: PinData,
    k1: PinKind,
    k2: PinKind,
    i: i32,
    kernel: i32,
    kind: AnyValue,
    s: Option<i32>,
    def: Option<AnyValue>,
    links: Seq<Link>,
    imp: Implementation,
    side: Side,
) -> bool {
    &&& p.shell_sig == Some(PinSignature { kind: k1, index: i })
    &&& p.kernel_sig == Some(PinSignature { kind: k1, index: kernel })
    &&& selected_ok(
        p.value,
        match def {
            Some(d) => d,
            None => kind,
        },
        def is Some,
        s,
        kind,
        imp,
        side,
    )
    &&& p.type_id == Some(type_code(kind, side))
    &&& p.connection@ == targets(links, k2)
    &&& p.persistent_pin_uid is None
}

fn encode_value_pin(
    k1: PinKind,
    k2: PinKind,
    i: i32,
    kernel: i32,
    kind: &AnyValue,
    s: Option<i32>,
    def: &Option<AnyValue>,
    links: &Vec<Link>,
    imp: Implementation,
    side: Side,
) -> (r: PinData)
    requires
        links_encodable(links@),
        def matches Some(d) ==> encodable(*d),
        s is Some && imp == Implementation::Struct ==> kind is Struct,
    ensures
        value_pin_ok(r, k1, k2, i, kernel, *kind, s, *def, links@, imp, side),
{
    let value = match def {
        Some(d) => encode_selected(d, true, s, kind, imp, side),
        None => encode_selected(kind, false, s, kind, imp, side),
    };
    let connection = encode_targets(links, k2);
    PinData {
        shell_sig: Some(PinSignature { kind: k1, index: i }),
        kernel_sig: Some(PinSignature { kind: k1, index: kernel }),
        value,
        type_id: Some(kind.get_type_id(side)),
        connection,
        persistent_pin_uid: None,
    }
}

// ---------------------------------------------------------------------------
// Nodes.
// ---------------------------------------------------------------------------

/// The control outputs, among the first `upto`, that have a link to a
/// node: each has a pin in the encoded node.
pub open spec fn live_controls(lists: Seq<Seq<Link>>, upto: int) -> Seq<int>
    decreases upto,
{
    if upto <= 0 {
        Seq::empty()
    } else {
        let rest = live_controls(lists, upto - 1);
        if targets(lists[upto - 1], PinKind::InControl).len() > 0 {
            rest.push(upto - 1)
        } else {
            rest
        }
    }
}

/// The value outputs, among the first `upto`, that have a type selector:
/// each has a pin in the encoded node.
pub open spec fn selected_outputs(sel: Seq<Option<i32>>, upto: int) -> Seq<int>
    decreases upto,
{
    if upto <= 0 {
        Seq::empty()
    } else {
        let rest = selected_outputs(sel, upto - 1);
        if sel[upto - 1] is Some {
            rest.push(upto - 1)
        } else {
            rest
        }
    }
}

/// How many of the first `upto` inputs have a type.
pub open spec fn typed_count(types: Seq<Option<AnyValue>>, upto: int) -> int
    decreases upto,
{
    if upto <= 0 {
        0
    } else {
        typed_count(types, upto - 1) + if types[upto - 1] is Some {
            1int
        } else {
            0int
        }
    }
}

/// Neither a value nor a link.
pub open spec fn unset(v: ValueIn) -> bool {
    v.default is None && v.link is None
}

/// The value inputs, among the first `upto`, that have a type and a value
/// or a link: each has a pin in the encoded node.
pub open spec fn set_inputs(types: Seq<Option<AnyValue>>, ins: Seq<ValueIn>, upto: int) -> Seq<int>
    decreases upto,
{
    if upto <= 0 {
        Seq::empty()
    } else {
        let rest = set_inputs(types, ins, upto - 1);
        if types[upto - 1] is Some && !unset(ins[upto - 1]) {
            rest.push(upto - 1)
        } else {
            rest
        }
    }
}

/// `p` is the pin of control output `j`, whose links are `links`.
pub open spec fn control_pin_ok(p: PinData, j: int, links: Seq<Link>) -> bool {
    &&& p.shell_sig == Some(PinSignature { kind: PinKind::OutControl, index: j as i32 })
    &&& p.kernel_sig == Some(PinSignature { kind: PinKind::OutControl, index: j as i32 })
    &&& p.value is None
    &&& p.type_id is None
    &&& p.connection@ == targets(links, PinKind::InControl)
    &&& p.persistent_pin_uid is None
}

/// `ps` are the pins of the control outputs of `n`.
pub open spec fn control_pins_ok(ps: Seq<PinData>, n: NodeView) -> bool {
    let idx = live_controls(n.controls_out, n.controls_out.len() as int);
    &&& ps.len() == idx.len()
    &&& forall|p: int|
        0 <= p < ps.len() ==> control_pin_ok(#[trigger] ps[p], idx[p], n.controls_out[idx[p]])
}

/// `ps` are the pins of the value outputs of `n`.
pub open spec fn output_pins_ok(ps: Seq<PinData>, n: NodeView, side: Side) -> bool {
    let idx = selected_outputs(n.kind.selectors_out@, n.values_out.len() as int);
    &&& ps.len() == idx.len()
    &&& forall|p: int|
        0 <= p < ps.len() ==> value_pin_ok(
            #[trigger] ps[p],
            PinKind::OutValue,
            PinKind::InValue,
            idx[p] as i32,
            idx[p] as i32,
            n.kind.values_out_types@[idx[p]],
            n.kind.selectors_out@[idx[p]],
            None,
            n.values_out[idx[p]],
            n.kind.imps_out@[idx[p]],
            side,
        )
}

/// `ps` are the pins of the value inputs of `n`; the kernel index of an
/// input counts the typed inputs before it.
pub open spec fn input_pins_ok(ps: Seq<PinData>, n: NodeView, side: Side) -> bool {
    let types = n.kind.values_in_types@;
    let idx = set_inputs(types, n.values_in, n.values_in.len() as int);
    &&& ps.len() == idx.len()
    &&& forall|p: int|
        0 <= p < ps.len() ==> value_pin_ok(
            #[trigger] ps[p],
            PinKind::InValue,
            PinKind::OutValue,
            idx[p] as i32,
            typed_count(types, idx[p]) as i32,
            types[idx[p]]->0,
            n.kind.selectors_in@[idx[p]],
            n.values_in[idx[p]].default,
            opt_links(n.values_in[idx[p]].link),
            Implementation::Primitive,
            side,
        )
}

/// The identifier of the shape of a node of the game.
pub open spec fn shell_of(n: NodeView) -> Identifier {
    Identifier {
        source: Source::SystemDefined,
        category: Category::ServerBasic,
        kind: n.kind.id->kind,
        guid: 0,
        runtime_id: n.kind.id->Low_id,
    }
}

/// The identifier of the implementation of a node of the game, if it has
/// a kernel.
pub open spec fn kernel_of(n: NodeView) -> Option<Identifier> {
    if n.kind.kernel_id == 0 {
        None
    } else {
        Some(Identifier { runtime_id: n.kind.kernel_id, ..shell_of(n) })
    }
}

/// `r` is node `k`, that is `n`, encoded for `side`: its number, its
/// identifiers, then the pins of its control outputs, of its value outputs
/// and of its value inputs.
pub open spec fn instance_ok(r: NodeInstance, k: usize, n: NodeView, side: Side) -> bool {
    let a = live_controls(n.controls_out, n.controls_out.len() as int).len() as int;
    let b = selected_outputs(n.kind.selectors_out@, n.values_out.len() as int).len() as int;
    let pins = r.pins@;
    &&& r.index == node_number(k)
    &&& r.shell_ref == Some(shell_of(n))
    &&& r.kernel_ref == kernel_of(n)
    &&& r.x_pos == 0
    &&& r.y_pos == 0
    &&& a + b <= pins.len()
    &&& control_pins_ok(pins.subrange(0, a), n)
    &&& output_pins_ok(pins.subrange(a, a + b), n, side)
    &&& input_pins_ok(pins.subrange(a + b, pins.len() as int), n, side)
}

/// The links of the control outputs of `n` reach numbered nodes.
pub open spec fn controls_encodable(n: NodeView) -> bool {
    forall|j: int| 0 <= j < n.controls_out.len() ==> links_encodable(#[trigger] n.controls_out[j])
}

/// Every value output of `n` with a type selector has a type, an
/// implementation (a structure type for a structure implementation), and
/// links to numbered nodes.
pub open spec fn outputs_encodable(n: NodeView) -> bool {
    &&& n.values_out.len() <= n.kind.selectors_out@.len()
    &&& forall|j: int|
        0 <= j < n.values_out.len() && (#[trigger] n.kind.selectors_out@[j]) is Some ==> {
            &&& j < n.kind.values_out_types@.len()
            &&& j < n.kind.imps_out@.len()
            &&& links_encodable(n.values_out[j])
            &&& n.kind.imps_out@[j] == Implementation::Struct ==> n.kind.values_out_types@[j] is Struct
        }
}

/// Every value input of `n` has a type or none; those with a type that
/// are set have a selector, a link to a numbered node if any, and a value
/// that has an encoding if any.
pub open spec fn inputs_encodable(n: NodeView) -> bool {
    let types = n.kind.values_in_types@;
    &&& n.values_in.len() <= types.len()
    &&& typed_count(types, n.values_in.len() as int) <= i32::MAX
    &&& forall|i: int|
        0 <= i < n.values_in.len() && (#[trigger] types[i]) is Some && !unset(n.values_in[i]) ==> {
            &&& i < n.kind.selectors_in@.len()
            &&& links_encodable(opt_links(n.values_in[i].link))
            &&& n.values_in[i].default matches Some(d) ==> encodable(d)
        }
}

/// Node `k`, that is `n`, can be encoded: it has a number, it is a node of
/// the game, and its pins can be encoded.
pub open spec fn node_encodable(k: usize, n: NodeView) -> bool {
    &&& (k as i32) < i32::MAX
    &&& n.kind.id is Low
    &&& controls_encodable(n)
    &&& outputs_encodable(n)
    &&& inputs_encodable(n)
}

proof fn lemma_typed_count_grows(types: Seq<Option<AnyValue>>, a: int, b: int)
    requires
        0 <= a <= b,
    ensures
        typed_count(types, a) <= typed_count(types, b),
    decreases b - a,
{
    if a < b {
        lemma_typed_count_grows(types, a, b - 1);
    }
}

fn encode_control_pins(n: &Node) -> (r: Vec<PinData>)
    requires
        controls_encodable(n@),
    ensures
        control_pins_ok(r@, n@),
{
    let ghost lists = n@.controls_out;
    let mut r: Vec<PinData> = Vec::new();
    let mut j: usize = 0;
    while j < n.controls_out.len()
        invariant
            j <= n.controls_out@.len(),
            lists == n@.controls_out,
            lists.len() == n.controls_out@.len(),
            controls_encodable(n@),
            r@.len() == live_controls(lists, j as int).len(),
            forall|p: int|
                0 <= p < r@.len() ==> control_pin_ok(
                    #[trigger] r@[p],
                    live_controls(lists, j as int)[p],
                    lists[live_controls(lists, j as int)[p]],
                ),
        decreases n.controls_out@.len() - j,
    {
        assert(n.controls_out@[j as int]@ == lists[j as int]);
        assert(links_encodable(lists[j as int]));
        let conns = encode_targets(&n.controls_out[j], PinKind::InControl);
        if conns.len() > 0 {
            let index = j as i32;
            let sig = PinSignature { kind: PinKind::OutControl, index };
            r.push(
                PinData {
                    shell_sig: Some(sig),
                    kernel_sig: Some(sig),
                    value: None,
                    type_id: None,
                    connection: conns,
                    persistent_pin_uid: None,
                },
            );
        }
        j = j + 1;
    }
    r
}

fn encode_output_pins(n: &Node, side: Side) -> (r: Vec<PinData>)
    requires
        outputs_encodable(n@),
    ensures
        output_pins_ok(r@, n@, side),
{
    let ghost v = n@;
    let ghost sel = n.kind.selectors_out@;
    let none: Option<AnyValue> = None;
    let mut r: Vec<PinData> = Vec::new();
    let mut i: usize = 0;
    while i < n.values_out.len()
        invariant
            v == n@,
            sel == n.kind.selectors_out@,
            i <= n.values_out@.len(),
            v.values_out.len() == n.values_out@.len(),
            outputs_encodable(v),
            none is None,
            r@.len() == selected_outputs(sel, i as int).len(),
            forall|p: int|
                0 <= p < r@.len() ==> value_pin_ok(
                    #[trigger] r@[p],
                    PinKind::OutValue,
                    PinKind::InValue,
                    selected_outputs(sel, i as int)[p] as i32,
                    selected_outputs(sel, i as int)[p] as i32,
                    v.kind.values_out_types@[selected_outputs(sel, i as int)[p]],
                    sel[selected_outputs(sel, i as int)[p]],
                    None,
                    v.values_out[selected_outputs(sel, i as int)[p]],
                    v.kind.imps_out@[selected_outputs(sel, i as int)[p]],
                    side,
                ),
        decreases n.values_out@.len() - i,
    {
        match n.kind.selectors_out[i] {
            None => {},
            Some(s) => {
                assert(sel[i as int] is Some);
                assert(n.values_out@[i as int]@ == v.values_out[i as int]);
                let index = i as i32;
                let pin = encode_value_pin(
                    PinKind::OutValue,
                    PinKind::InValue,
                    index,
                    index,
                    &n.kind.values_out_types[i],
                    Some(s),
                    &none,
                    &n.values_out[i],
                    n.kind.imps_out[i],
                    side,
                );
                r.push(pin);
            },
        }
        i = i + 1;
    }
    r
}

fn encode_input_pins(n: &Node, side: Side) -> (r: Vec<PinData>)
    requires
        inputs_encodable(n@),
    ensures
        input_pins_ok(r@, n@, side),
{
    let ghost v = n@;
    let ghost types = n.kind.values_in_types@;
    let mut r: Vec<PinData> = Vec::new();
    let mut kernel: i32 = 0;
    let mut i: usize = 0;
    while i < n.values_in.len()
        invariant
            v == n@,
            types == n.kind.values_in_types@,
            i <= n.values_in@.len(),
            v.values_in == n.values_in@,
            inputs_encodable(v),
            kernel == typed_count(types, i as int),
            r@.len() == set_inputs(types, v.values_in, i as int).len(),
            forall|p: int|
                0 <= p < r@.len() ==> value_pin_ok(
                    #[trigger] r@[p],
                    PinKind::InValue,
                    PinKind::OutValue,
                    set_inputs(types, v.values_in, i as int)[p] as i32,
                    typed_count(types, set_inputs(types, v.values_in, i as int)[p]) as i32,
                    types[set_inputs(types, v.values_in, i as int)[p]]->0,
                    v.kind.selectors_in@[set_inputs(types, v.values_in, i as int)[p]],
                    v.values_in[set_inputs(types, v.values_in, i as int)[p]].default,
                    opt_links(v.values_in[set_inputs(types, v.values_in, i as int)[p]].link),
                    Implementation::Primitive,
                    side,
                ),
        decreases n.values_in@.len() - i,
    {
        match &n.kind.values_in_types[i] {
            None => {},
            Some(kind) => {
                assert(types[i as int] is Some);
                let x = &n.values_in[i];
                if !x.is_unset() {
                    let mut links: Vec<Link> = Vec::new();
                    match x.link {
                        Some(l) => links.push(l),
                        None => {},
                    }
                    assert(links@ =~= opt_links(x.link));
                    let index = i as i32;
                    let pin = encode_value_pin(
                        PinKind::InValue,
                        PinKind::OutValue,
                        index,
                        kernel,
                        kind,
                        n.kind.selectors_in[i],
                        &x.default,
                        &links,
                        Implementation::Primitive,
                        side,
                    );
                    r.push(pin);
                }
                proof {
                    lemma_typed_count_grows(types, i + 1, n.values_in@.len() as int);
                }
                kernel = kernel + 1;
            },
        }
        i = i + 1;
    }
    r
}

/// Encodes node `key`, that is `n`, for `side`.
pub fn encode_node(key: NodeRef, n: &Node, side: Side) -> (r: NodeInstance)
    requires
        node_encodable(key.0, n@),
    ensures
        instance_ok(r, key.0, n@, side),
{
    let mut pins = encode_control_pins(n);
    let mut outs = encode_output_pins(n, side);
    let mut ins = encode_input_pins(n, side);
    let ghost ctl = pins@;
    let ghost out = outs@;
    let ghost inp = ins@;
    pins.append(&mut outs);
    pins.append(&mut ins);
    assert(pins@.subrange(0, ctl.len() as int) =~= ctl);
    assert(pins@.subrange(ctl.len() as int, (ctl.len() + out.len()) as int) =~= out);
    assert(pins@.subrange((ctl.len() + out.len()) as int, pins@.len() as int) =~= inp);
    NodeInstance {
        index: key.encode(),
        shell_ref: Some(n.kind.encode_shell()),
        kernel_ref: n.kind.encode_kernel(),
        pins,
        x_pos: 0,
        y_pos: 0,
    }
}

// ---------------------------------------------------------------------------
// Graphs.
// ---------------------------------------------------------------------------

/// `ks` lists the keys of `dom`, each once, in increasing order.
pub open spec fn keys_in_order(ks: Seq<usize>, dom: Set<usize>) -> bool {
    &&& forall|i: int, j: int| 0 <= i < j < ks.len() ==> ks[i] < ks[j]
    &&& forall|k: usize| dom.contains(k) <==> ks.contains(k)
}

/// A list of node references sorted by key and holding exactly the keys of
/// `dom` lists those keys in increasing order.
pub proof fn lemma_keys_in_order(keys: Seq<NodeRef>, dom: Set<usize>)
    requires
        forall|i: int, j: int| 0 <= i < j < keys.len() ==> keys[i].0 < keys[j].0,
        forall|k: usize| dom.contains(k) <==> keys.contains(NodeRef(k)),
    ensures
        keys_in_order(keys.map_values(|x: NodeRef| x.0), dom),
{
    let ks = keys.map_values(|x: NodeRef| x.0);
    assert forall|k: usize| dom.contains(k) <==> ks.contains(k) by {
        if keys.contains(NodeRef(k)) {
            let j = choose|j: int| 0 <= j < keys.len() && keys[j] == NodeRef(k);
            assert(ks[j] == k);
        }
        if ks.contains(k) {
            let j = choose|j: int| 0 <= j < ks.len() && ks[j] == k;
            assert(keys[j] == NodeRef(k));
        }
    }
}

/// Every node of the graph can be encoded.
pub open spec fn graph_encodable(m: Map<usize, NodeView>) -> bool {
    forall|k: usize| #[trigger] m.dom().contains(k) ==> node_encodable(k, m[k])
}

/// The identifiers that the kinds of nodes `ks` refer to, node after node.
pub open spec fn references_of(m: Map<usize, NodeView>, ks: Seq<usize>) -> Seq<Identifier>
    decreases ks.len(),
{
    if ks.len() == 0 {
        Seq::empty()
    } else {
        references_of(m, ks.drop_last()) + m[ks.last()].kind.references@
    }
}

/// `nodes` are the nodes `ks` of `m`, encoded for `side`, in that order.
pub open spec fn instances_ok(
    nodes: Seq<NodeInstance>,
    ks: Seq<usize>,
    m: Map<usize, NodeView>,
    side: Side,
) -> bool {
    &&& nodes.len() == ks.len()
    &&& forall|i: int| 0 <= i < ks.len() ==> instance_ok(#[trigger] nodes[i], ks[i], m[ks[i]], side)
}

/// The identifier of the encoded graph of the asset `id`, a graph of kind
/// `kind`.
pub open spec fn graph_id_of(id: Identifier, kind: AssetKind) -> Identifier {
    Identifier {
        source: Source::UserDefined,
        category: Category::ServerBasic,
        kind,
        guid: 0,
        runtime_id: id.guid,
    }
}

/// The encoded graph that an asset holds.
pub open spec fn graph_data(a: AssetData) -> NodeGraphData {
    match a.payload {
        Payload::GraphData(g) => g,
        _ => arbitrary(),
    }
}

/// `a` is the asset `id` of the graph of kind `kind` named `name` with
/// nodes `m`: the identifiers its nodes refer to, its name, and its nodes
/// encoded for the server in the order of their keys.
pub open spec fn graph_asset_ok(
    a: AssetData,
    id: Identifier,
    kind: AssetKind,
    name: Seq<char>,
    m: Map<usize, NodeView>,
) -> bool {
    &&& a.id == Some(id)
    &&& a.name@ == name
    &&& a.asset_type == AssetType::EntityNodeGraph
    &&& a.payload is GraphData
    &&& graph_data(a).id == graph_id_of(id, kind)
    &&& graph_data(a).display_name@ == name
    &&& exists|ks: Seq<usize>|
        {
            &&& keys_in_order(ks, m.dom())
            &&& a.references@ == references_of(m, ks)
            &&& instances_ok(graph_data(a).node@, ks, m, Side::Server)
        }
}

fn push_all(ids: &mut Vec<Identifier>, more: &Vec<Identifier>)
    ensures
        final(ids)@ == old(ids)@ + more@,
{
    let ghost start = ids@;
    let mut i: usize = 0;
    while i < more.len()
        invariant
            i <= more@.len(),
            ids@ == start + more@.subrange(0, i as int),
        decreases more@.len() - i,
    {
        ids.push(more[i]);
        assert(start + more@.subrange(0, i + 1) =~= (start + more@.subrange(0, i as int)).push(
            more@[i as int],
        ));
        i = i + 1;
    }
    assert(more@.subrange(0, more@.len() as int) =~= more@);
}

impl NodeGraph {
    /// The graph as an asset with identifier `id`: the identifiers its
    /// nodes refer to, its name, and its nodes encoded in the order of
    /// their keys, with no port mapping and an empty blackboard.
    pub fn apply(self, id: Identifier) -> (r: AssetData)
        requires
            graph_encodable(self@),
        ensures
            graph_asset_ok(r, id, AssetKind::CustomGraph, self.name@, self@),
            graph_data(r).port_mapping@.len() == 0,
            graph_data(r).blackboard@.len() == 0,
    {
        self.into_asset(id, AssetKind::CustomGraph, Vec::new(), Vec::new())
    }

    /// The graph as an asset with identifier `id`, its encoded graph of
    /// kind `kind` with the given port mapping and blackboard.
    pub(crate) fn into_asset(
        self,
        id: Identifier,
        kind: AssetKind,
        port_mapping: Vec<InterfaceMapping>,
        blackboard: Vec<GraphVariableData>,
    ) -> (r: AssetData)
        requires
            graph_encodable(self@),
        ensures
            graph_asset_ok(r, id, kind, self.name@, self@),
            graph_data(r).port_mapping@ == port_mapping@,
            graph_data(r).blackboard@ == blackboard@,
    {
        let side = self.class.side();
        let keys = self.get_nodes();
        let ghost ks = keys@.map_values(|x: NodeRef| x.0);
        let mut nodes: Vec<NodeInstance> = Vec::new();
        let mut references: Vec<Identifier> = Vec::new();
        let mut i: usize = 0;
        while i < keys.len()
            invariant
                i <= keys@.len(),
                ks == keys@.map_values(|x: NodeRef| x.0),
                side == Side::Server,
                graph_encodable(self@),
                forall|k: usize| self@.dom().contains(k) <==> keys@.contains(NodeRef(k)),
                references@ == references_of(self@, ks.subrange(0, i as int)),
                instances_ok(nodes@, ks.subrange(0, i as int), self@, side),
            decreases keys@.len() - i,
        {
            let key = keys[i];
            assert(keys@.contains(key));
            assert(key == NodeRef(key.0));
            assert(self@.dom().contains(key.0));
            assert(node_encodable(key.0, self@[key.0]));
            let n = self.get_node(key);
            let inst = encode_node(key, n, side);
            nodes.push(inst);
            push_all(&mut references, &n.kind.references);
            assert(ks.subrange(0, i + 1).drop_last() =~= ks.subrange(0, i as int));
            assert(ks.subrange(0, i + 1).last() == key.0);
            i = i + 1;
        }
        assert(ks.subrange(0, ks.len() as int) =~= ks);
        proof {
            lemma_keys_in_order(keys@, self@.dom());
        }
        let name = self.name;
        let display_name = name.clone();
        AssetData {
            id: Some(id),
            references,
            name,
            asset_type: AssetType::EntityNodeGraph,
            payload: Payload::GraphData(
                NodeGraphData {
                    id: Identifier {
                        source: Source::UserDefined,
                        category: Category::ServerBasic,
                        kind,
                        guid: 0,
                        runtime_id: id.guid,
                    },
                    display_name,
                    node: nodes,
                    port_mapping,
                    blackboard,
                },
            ),
        }
    }
}

// ---------------------------------------------------------------------------
// The main graph and its blackboard.
// ---------------------------------------------------------------------------

/// A variable of a graph's blackboard.
pub struct NodeGraphStatic {
    pub name: String,
    pub value: AnyValue,
    pub is_set: bool,
    pub is_public: bool,
}

/// `d` is the variable `s` as the asset format writes it for the server.
pub open spec fn static_ok(d: GraphVariableData, s: NodeGraphStatic) -> bool {
    &&& d.var_name@ == s.name@
    &&& d.base_type == server_type_of(s.value).spec_code()
    &&& d.storage_value matches Some(tv) && typed_ok(tv, s.value, s.is_set, Side::Server)
    &&& d.is_public == s.is_public
    &&& (d.schema_ref_id, d.container_key_type, d.container_value_type) == variable_schema(s.value)
}

impl NodeGraphStatic {
    /// A private variable holding the set value `value`.
    pub fn new(name: String, value: AnyValue) -> (r: Self)
        ensures
            r.name == name,
            r.value == value,
            r.is_set,
            !r.is_public,
    {
        Self { name, value, is_set: true, is_public: false }
    }

    /// The variable as the asset format writes it; its value is encoded
    /// for the server.
    pub fn encode(&self) -> (r: GraphVariableData)
        requires
            self.is_set ==> encodable(self.value),
        ensures
            static_ok(r, *self),
    {
        let mut result = GraphVariableData {
            var_name: self.name.clone(),
            base_type: self.value.get_server_type().code(),
            storage_value: Some(self.value.encode_typed(self.is_set, Side::Server)),
            is_public: self.is_public,
            schema_ref_id: None,
            container_key_type: 0,
            container_value_type: 0,
        };
        match self.value.encode_schema() {
            Some(Schema::StructRef(s)) => result.schema_ref_id = Some(s.schema_id),
            Some(Schema::MapBinding(m)) => {
                result.container_key_type = m.key_type;
                result.container_value_type = m.value_type;
                result.schema_ref_id = m.value_struct_id;
            },
            None => {},
        }
        result
    }
}

/// The graph that runs on an entity, with its blackboard.
pub struct MainNodeGraph {
    pub graph: NodeGraph,
    pub statics: Vec<NodeGraphStatic>,
}

impl MainNodeGraph {
    /// The graph with an empty blackboard.
    pub fn new(graph: NodeGraph) -> (r: Self)
        ensures
            r.graph == graph,
            r.statics@.len() == 0,
    {
        Self { graph, statics: Vec::new() }
    }

    /// Adds the graph to `bundle` under a new identifier of the node-graph
    /// category, with its blackboard, and returns the identifier.
    pub fn apply(self, bundle: &mut AssetBundle) -> (r: Identifier)
        requires
            graph_encodable(self.graph@),
            forall|i: int|
                0 <= i < self.statics@.len() ==> (#[trigger] self.statics@[i]).is_set ==> encodable(
                    self.statics@[i].value,
                ),
            bundle_wf(*old(bundle)),
            counters(old(bundle).allocators@).contains_key(Category::ServerNodeGraph),
            counters(old(bundle).allocators@)[Category::ServerNodeGraph] < i64::MAX,
        ensures
            r == allocated(
                Category::ServerNodeGraph,
                AssetKind::Basic,
                counters(old(bundle).allocators@)[Category::ServerNodeGraph],
            ),
            counters(final(bundle).allocators@) == counters(old(bundle).allocators@).insert(
                Category::ServerNodeGraph,
                (r.guid + 1) as i64,
            ),
            final(bundle).assets@.len() == old(bundle).assets@.len() + 1,
            final(bundle).assets@.drop_last() == old(bundle).assets@,
            graph_asset_ok(
                final(bundle).assets@.last(),
                r,
                AssetKind::CustomGraph,
                self.graph.name@,
                self.graph@,
            ),
            graph_data(final(bundle).assets@.last()).port_mapping@.len() == 0,
            graph_data(final(bundle).assets@.last()).blackboard@.len() == self.statics@.len(),
            forall|i: int|
                0 <= i < self.statics@.len() ==> static_ok(
                    #[trigger] graph_data(final(bundle).assets@.last()).blackboard@[i],
                    self.statics@[i],
                ),
            final(bundle).mode == old(bundle).mode,
            final(bundle).primary@ == old(bundle).primary@,
            bundle_wf(*final(bundle)),
    {
        let id = bundle.alloc_id(Category::ServerNodeGraph, AssetKind::Basic);
        let ghost statics = self.statics@;
        let mut vars: Vec<GraphVariableData> = Vec::new();
        let mut i: usize = 0;
        while i < self.statics.len()
            invariant
                i <= statics.len(),
                statics == self.statics@,
                forall|j: int|
                    0 <= j < statics.len() ==> (#[trigger] statics[j]).is_set ==> encodable(
                        statics[j].value,
                    ),
                vars@.len() == i,
                forall|j: int| 0 <= j < i ==> static_ok(#[trigger] vars@[j], statics[j]),
            decreases statics.len() - i,
        {
            let v = self.statics[i].encode();
            vars.push(v);
            i = i + 1;
        }
        let data = self.graph.into_asset(id, AssetKind::CustomGraph, Vec::new(), vars);
        bundle.push(data);
        id
    }
}

} // verus!
