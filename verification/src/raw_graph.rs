//! The plain form of a node graph, close to the encoded one: node types by
//! identifier, pins with their values and links, and blackboard variables.

use vstd::prelude::*;

use crate::ids::{AssetKind, Category, Identifier, Side, Source};
use crate::message::{
    AssetData, AssetType, GraphVariableData, InterfaceMapping, NodeConnection, NodeGraphData, NodeInstance,
    Payload, PinData, PinKind, PinSignature, Schema, TypedValue,
};
use crate::value::{copy_all, encodable, schema_of, server_type_of, typed_ok, AnyValue};

verus! {

/// The kind of a plain graph.
#[derive(Clone, Copy, Debug, PartialEq, Eq, Structural)]
pub enum NodeGraphClass {
    Entity,
}

/// Severity of a line of a simulation's log.
#[derive(Clone, Copy, Debug, PartialEq, Eq, Structural)]
pub enum LogType {
    Event,
    Info,
    Error,
}

/// The index of a node in a plain graph.
#[derive(Clone, Copy, Debug, PartialEq, Eq, Structural)]
pub struct NodeRef(pub i32);

/// A pin of a node: the node and the pin's index.
#[derive(Clone, Copy, Debug, PartialEq, Eq, Structural)]
pub struct Link(pub NodeRef, pub i32);

impl Link {
    pub fn new(node: NodeRef, pin: i32) -> (r: Self)
        ensures
            r.0 == node,
            r.1 == pin,
    {
        Self(node, pin)
    }

    pub fn node(&self) -> (r: NodeRef)
        ensures
            r == self.0,
    {
        self.0
    }

    pub fn pin(&self) -> (r: i32)
        ensures
            r == self.1,
    {
        self.1
    }
}

/// A run of control flow, entered at `begin` and left at `end`.
#[derive(Clone, Copy, Debug, PartialEq, Eq, Structural)]
pub struct Block {
    pub begin: NodeRef,
    pub end: Link,
}

impl Block {
    /// The block of one node, left at its control output `out`.
    pub fn singleton(node: NodeRef, out: i32) -> (r: Self)
        ensures
            r.begin == node,
            r.end == Link(node, out),
    {
        Self { begin: node, end: Link::new(node, out) }
    }
}

/// The identifier of the system node numbered `value`.
pub open spec fn simple_id(value: i64) -> Identifier {
    Identifier {
        source: Source::SystemDefined,
        category: Category::ServerBasic,
        kind: AssetKind::SysCallStub,
        guid: 0,
        runtime_id: value,
    }
}

/// The type of a node: its outer shape and its implementation.
#[derive(Clone, Copy, Debug, PartialEq, Eq, Structural)]
pub struct NodeType {
    pub shell: Identifier,
    pub kernel: Identifier,
}

impl NodeType {
    /// The identifier of the system node numbered `value`.
    pub fn id_simple(value: i64) -> (r: Identifier)
        ensures
            r == simple_id(value),
    {
        Identifier {
            source: Source::SystemDefined,
            category: Category::ServerBasic,
            kind: AssetKind::SysCallStub,
            guid: 0,
            runtime_id: value,
        }
    }

    /// The system node numbered `id`, as shell and as implementation.
    pub fn simple(id: i64) -> (r: Self)
        ensures
            r.shell == simple_id(id),
            r.kernel == simple_id(id),
    {
        Self { shell: Self::id_simple(id), kernel: Self::id_simple(id) }
    }

    /// A generic system node `shell` made specific by the implementation
    /// `kernel`.
    pub fn variant(shell: i64, kernel: i64) -> (r: Self)
        ensures
            r.shell == simple_id(shell),
            r.kernel == simple_id(kernel),
    {
        Self { shell: Self::id_simple(shell), kernel: Self::id_simple(kernel) }
    }

    /// Whether the node stands for a composite node.
    pub fn is_composite(&self) -> (r: bool)
        ensures
            r == (self.shell.kind == AssetKind::GeneratedStub),
    {
        self.shell.kind == AssetKind::GeneratedStub
    }

    /// The id of the node at run time: that of its shell.
    pub fn runtime_id(&self) -> (r: i64)
        ensures
            r == self.shell.runtime_id,
    {
        self.shell.runtime_id
    }
}

/// The other end of a link of a pin: a node by its index, and its pin.
#[derive(Clone, Copy, Debug, PartialEq, Eq, Structural)]
pub struct RawLink {
    pub node: i32,
    pub ty: PinKind,
    pub index: i32,
}

/// A pin with its value (and whether the value is set), its links and
/// its persistent id.
#[derive(Debug)]
pub struct RawPin {
    pub ty: PinKind,
    pub index: i32,
    pub value: Option<(AnyValue, bool)>,
    pub links: Vec<RawLink>,
    pub uid: Option<i32>,
}

pub open spec fn signature_of(ty: PinKind, index: i32) -> PinSignature {
    PinSignature { kind: ty, index }
}

/// The encoding of a link of a pin.
pub open spec fn connection_of(l: RawLink) -> NodeConnection {
    NodeConnection {
        target_node_index: l.node,
        target_pin_shell: Some(signature_of(l.ty, l.index)),
        target_pin_kernel: Some(signature_of(l.ty, l.index)),
    }
}

fn signature(ty: PinKind, index: i32) -> (r: PinSignature)
    ensures
        r == signature_of(ty, index),
{
    PinSignature { kind: ty, index }
}

impl RawPin {
    /// A pin without value, links or id.
    pub fn new(ty: PinKind, index: i32) -> (r: Self)
        ensures
            r.ty == ty,
            r.index == index,
            r.value is None,
            r.links@.len() == 0,
            r.uid is None,
    {
        Self { ty, index, value: None, links: Vec::new(), uid: None }
    }

    /// The pin as the asset format writes it.
    pub fn encode(&self, side: Side) -> (r: PinData)
        requires
            self.value matches Some(vt) ==> (vt.1 ==> encodable(vt.0)),
        ensures
            r.shell_sig == Some(signature_of(self.ty, self.index)),
            r.kernel_sig == Some(signature_of(self.ty, self.index)),
            match self.value {
                None => r.value is None && r.type_id is None,
                Some(vt) => {
                    &&& r.value matches Some(tv) && typed_ok(tv, vt.0, vt.1, side)
                    &&& r.type_id == Some(
                        match side {
                            Side::Server => server_type_of(vt.0).spec_code(),
                            Side::Client => crate::value::client_type_of(vt.0).spec_code(),
                        },
                    )
                },
            },
            r.connection@ == self.links@.map_values(|l: RawLink| connection_of(l)),
            r.persistent_pin_uid == self.uid,
    {
        let sig = signature(self.ty, self.index);
        let (value, type_id) = match &self.value {
            Some((v, t)) => (Some(v.encode_typed(*t, side)), Some(v.get_type_id(side))),
            None => (None, None),
        };
        let mut connection: Vec<NodeConnection> = Vec::new();
        let mut i: usize = 0;
        while i < self.links.len()
            invariant
                i <= self.links@.len(),
                connection@ == self.links@.subrange(0, i as int).map_values(
                    |l: RawLink| connection_of(l),
                ),
            decreases self.links@.len() - i,
        {
            let l = self.links[i];
            let s = signature(l.ty, l.index);
            connection.push(
                NodeConnection { target_node_index: l.node, target_pin_shell: Some(s), target_pin_kernel: Some(s) },
            );
            assert(self.links@.subrange(0, i + 1).map_values(|l: RawLink| connection_of(l))
                =~= self.links@.subrange(0, i as int).map_values(|l: RawLink| connection_of(l)).push(
                connection_of(l),
            ));
            i = i + 1;
        }
        assert(self.links@.subrange(0, self.links@.len() as int) =~= self.links@);
        PinData {
            shell_sig: Some(sig),
            kernel_sig: Some(sig),
            value,
            type_id,
            connection,
            persistent_pin_uid: self.uid,
        }
    }
}

/// A variable of a graph's blackboard: its name, its value (whose type is
/// the variable's), whether the value is set, and whether the variable can
/// be set from outside.
#[derive(Debug)]
pub struct GraphVariable {
    pub name: String,
    pub value: AnyValue,
    pub is_set: bool,
    pub is_public: bool,
}

/// The schema fields of a variable: the structure referred to, and the key
/// and value types of a dictionary.
pub open spec fn variable_schema(v: AnyValue) -> (Option<i64>, i32, i32) {
    match schema_of(v) {
        Some(Schema::StructRef(s)) => (Some(s.schema_id), 0, 0),
        Some(Schema::MapBinding(m)) => (m.value_struct_id, m.key_type, m.value_type),
        None => (None, 0, 0),
    }
}

impl GraphVariable {
    /// A private variable holding the set value `value`.
    pub fn new(name: String, value: AnyValue) -> (r: Self)
        ensures
            r.name == name,
            r.value == value,
            r.is_set,
            !r.is_public,
    {
        Self { name, value, is_set: true, is_public: false }
    }

    /// The variable as the asset format writes it, its value for `side`.
    pub fn encode(&self, side: Side) -> (r: GraphVariableData)
        requires
            self.is_set ==> encodable(self.value),
        ensures
            r.var_name@ == self.name@,
            r.base_type == server_type_of(self.value).spec_code(),
            r.storage_value matches Some(tv) && typed_ok(tv, self.value, self.is_set, side),
            r.is_public == self.is_public,
            (r.schema_ref_id, r.container_key_type, r.container_value_type) == variable_schema(
                self.value,
            ),
    {
        let mut result = GraphVariableData {
            var_name: self.name.clone(),
            base_type: self.value.get_server_type().code(),
            storage_value: Some(self.value.encode_typed(self.is_set, side)),
            is_public: self.is_public,
            schema_ref_id: None,
            container_key_type: 0,
            container_value_type: 0,
        };
        if let Some(schema) = self.value.encode_schema() {
            match schema {
                Schema::StructRef(s) => result.schema_ref_id = Some(s.schema_id),
                Schema::MapBinding(m) => {
                    result.container_key_type = m.key_type;
                    result.container_value_type = m.value_type;
                    result.schema_ref_id = m.value_struct_id;
                },
            }
        }
        result
    }
}

/// A node of a plain graph: its type, its position in the editor (each
/// coordinate by the bits of its single-precision form) and its pins.
#[derive(Debug)]
pub struct RawNode {
    pub ty: NodeType,
    pub pos: (u32, u32),
    pub pins: Vec<RawPin>,
}

/// The pin's value, if set, can be encoded.
pub open spec fn pin_encodable(p: RawPin) -> bool {
    p.value matches Some(vt) ==> (vt.1 ==> encodable(vt.0))
}

/// `d` is the encoding of pin `p` for `side`.
pub open spec fn pin_ok(d: PinData, p: RawPin, side: Side) -> bool {
    &&& d.shell_sig == Some(signature_of(p.ty, p.index))
    &&& d.kernel_sig == Some(signature_of(p.ty, p.index))
    &&& match p.value {
        None => d.value is None && d.type_id is None,
        Some(vt) => {
            &&& d.value matches Some(tv) && typed_ok(tv, vt.0, vt.1, side)
            &&& d.type_id == Some(
                match side {
                    Side::Server => server_type_of(vt.0).spec_code(),
                    Side::Client => crate::value::client_type_of(vt.0).spec_code(),
                },
            )
        },
    }
    &&& d.connection@ == p.links@.map_values(|l: RawLink| connection_of(l))
    &&& d.persistent_pin_uid == p.uid
}

/// Every pin of the node can be encoded.
pub open spec fn node_pins_encodable(n: RawNode) -> bool {
    forall|i: int| 0 <= i < n.pins@.len() ==> pin_encodable(#[trigger] n.pins@[i])
}

/// `r` is the node `n` encoded as number `index` for `side`.
pub open spec fn raw_instance_ok(r: NodeInstance, n: RawNode, index: i32, side: Side) -> bool {
    &&& r.index == index
    &&& r.shell_ref == Some(n.ty.shell)
    &&& r.kernel_ref == Some(n.ty.kernel)
    &&& r.pins@.len() == n.pins@.len()
    &&& forall|i: int| 0 <= i < r.pins@.len() ==> pin_ok(#[trigger] r.pins@[i], n.pins@[i], side)
    &&& r.x_pos == n.pos.0
    &&& r.y_pos == n.pos.1
}

impl RawNode {
    /// The node as the asset format writes it, numbered `index`.
    pub fn encode(&self, index: i32, side: Side) -> (r: NodeInstance)
        requires
            node_pins_encodable(*self),
        ensures
            raw_instance_ok(r, *self, index, side),
    {
        let mut pins: Vec<PinData> = Vec::new();
        let mut i: usize = 0;
        while i < self.pins.len()
            invariant
                i <= self.pins@.len(),
                node_pins_encodable(*self),
                pins@.len() == i,
                forall|j: int| 0 <= j < i ==> pin_ok(#[trigger] pins@[j], self.pins@[j], side),
            decreases self.pins@.len() - i,
        {
            assert(pin_encodable(self.pins@[i as int]));
            pins.push(self.pins[i].encode(side));
            i = i + 1;
        }
        NodeInstance {
            index,
            shell_ref: Some(self.ty.shell),
            kernel_ref: Some(self.ty.kernel),
            pins,
            x_pos: self.pos.0,
            y_pos: self.pos.1,
        }
    }
}

/// A plain graph: its class and name, its nodes by index, its blackboard,
/// the assets it refers to, how its interface reaches its nodes, and the
/// kind of graph it is.
#[derive(Debug)]
pub struct RawNodeGraph {
    pub class: NodeGraphClass,
    pub name: String,
    pub nodes: Vec<(i32, RawNode)>,
    pub blackboard: Vec<GraphVariable>,
    pub references: Vec<Identifier>,
    pub port_mapping: Vec<InterfaceMapping>,
    pub graph_kind: AssetKind,
}

/// The graph can be encoded: node indices leave room for their number,
/// and every pin and every set variable can be encoded.
pub open spec fn raw_graph_encodable(g: RawNodeGraph) -> bool {
    &&& forall|i: int| 0 <= i < g.nodes@.len() ==> (#[trigger] g.nodes@[i]).0 < i32::MAX
    &&& forall|i: int| 0 <= i < g.nodes@.len() ==> node_pins_encodable((#[trigger] g.nodes@[i]).1)
    &&& forall|i: int| 0 <= i < g.blackboard@.len() ==> {
        let v = #[trigger] g.blackboard@[i];
        v.is_set ==> encodable(v.value)
    }
}

/// `d` is the blackboard variable `v` encoded for the server.
pub open spec fn variable_ok(d: GraphVariableData, v: GraphVariable) -> bool {
    &&& d.var_name@ == v.name@
    &&& d.base_type == server_type_of(v.value).spec_code()
    &&& d.storage_value matches Some(tv) && typed_ok(tv, v.value, v.is_set, Side::Server)
    &&& d.is_public == v.is_public
    &&& (d.schema_ref_id, d.container_key_type, d.container_value_type) == variable_schema(v.value)
}

/// `a` is the asset of the plain graph `g` numbered `id`: its nodes
/// encoded for the server in the order they are listed, each numbered by
/// its index plus one, and its variables in order.
pub open spec fn raw_graph_asset_ok(a: AssetData, g: RawNodeGraph, id: i64) -> bool {
    &&& a.id == Some(
        Identifier { source: Source::Unspecified, category: Category::ServerNodeGraph, kind: AssetKind::Unspecified, guid: id, runtime_id: 0 },
    )
    &&& a.references@ == g.references@
    &&& a.name@ == g.name@
    &&& a.asset_type == AssetType::EntityNodeGraph
    &&& a.payload matches Payload::GraphData(d) && {
        &&& d.id == Identifier {
            source: Source::UserDefined,
            category: Category::ServerBasic,
            kind: g.graph_kind,
            guid: 0,
            runtime_id: id,
        }
        &&& d.display_name@ == g.name@
        &&& d.node@.len() == g.nodes@.len()
        &&& forall|i: int|
            0 <= i < d.node@.len() ==> raw_instance_ok(
                #[trigger] d.node@[i],
                g.nodes@[i].1,
                (g.nodes@[i].0 + 1) as i32,
                Side::Server,
            )
        &&& d.port_mapping@ == g.port_mapping@
        &&& d.blackboard@.len() == g.blackboard@.len()
        &&& forall|i: int| 0 <= i < d.blackboard@.len() ==> variable_ok(#[trigger] d.blackboard@[i], g.blackboard@[i])
    }
}

impl RawNodeGraph {
    /// The graph as the asset it is written as, numbered `id`.
    pub fn encode(&self, id: i64) -> (r: Vec<AssetData>)
        requires
            raw_graph_encodable(*self),
        ensures
            r@.len() == 1,
            raw_graph_asset_ok(r@[0], *self, id),
    {
        let mut node: Vec<NodeInstance> = Vec::new();
        let mut i: usize = 0;
        while i < self.nodes.len()
            invariant
                i <= self.nodes@.len(),
                raw_graph_encodable(*self),
                node@.len() == i,
                forall|j: int|
                    0 <= j < i ==> raw_instance_ok(
                        #[trigger] node@[j],
                        self.nodes@[j].1,
                        (self.nodes@[j].0 + 1) as i32,
                        Side::Server,
                    ),
            decreases self.nodes@.len() - i,
        {
            let entry = &self.nodes[i];
            assert(entry.0 < i32::MAX);
            assert(node_pins_encodable(entry.1));
            node.push(entry.1.encode(entry.0 + 1, Side::Server));
            i = i + 1;
        }
        let mut blackboard: Vec<GraphVariableData> = Vec::new();
        let mut i: usize = 0;
        while i < self.blackboard.len()
            invariant
                i <= self.blackboard@.len(),
                raw_graph_encodable(*self),
                blackboard@.len() == i,
                forall|j: int| 0 <= j < i ==> variable_ok(#[trigger] blackboard@[j], self.blackboard@[j]),
            decreases self.blackboard@.len() - i,
        {
            let v = &self.blackboard[i];
            assert(v.is_set ==> encodable(v.value));
            blackboard.push(v.encode(Side::Server));
            i = i + 1;
        }
        let data = NodeGraphData {
            id: Identifier {
                source: Source::UserDefined,
                category: Category::ServerBasic,
                kind: self.graph_kind,
                guid: 0,
                runtime_id: id,
            },
            display_name: self.name.clone(),
            node,
            port_mapping: copy_all(&self.port_mapping),
            blackboard,
        };
        let asset = AssetData {
            id: Some(
                Identifier {
                    source: Source::Unspecified,
                    category: Category::ServerNodeGraph,
                    kind: AssetKind::Unspecified,
                    guid: id,
                    runtime_id: 0,
                },
            ),
            references: copy_all(&self.references),
            name: self.name.clone(),
            asset_type: match self.class {
                NodeGraphClass::Entity => AssetType::EntityNodeGraph,
            },
            payload: Payload::GraphData(data),
        };
        let mut r: Vec<AssetData> = Vec::new();
        r.push(asset);
        r
    }
}

} // verus!
