//! Node graphs: nodes with control and value pins, and the links between
//! them. Every link is kept on both of its ends.

use vstd::prelude::*;

use crate::ids::{AssetKind, Category, Identifier, Side, Source};
use crate::nodes::{bool_type, node_if};
use crate::value::{copy_all, instance_of, same_value, AnyValue, ValueBool};
use slab::Slab;

verus! {

// ---------------------------------------------------------------------------
// The node store.
// ---------------------------------------------------------------------------

#[verifier::external_type_specification]
#[verifier::external_body]
#[verifier::reject_recursive_types(T)]
pub struct ExSlab<T>(Slab<T>);

/// The nodes that a store of nodes holds, by key.
pub uninterp spec fn slab_nodes(s: Slab<Node>) -> Map<usize, Node>;

/// The key that the next insert into a store takes (its `next` field).
pub uninterp spec fn slab_next(s: Slab<Node>) -> usize;

/// The number of slots of a store, occupied or vacant (the length of its
/// `entries` field).
pub uninterp spec fn slab_slots(s: Slab<Node>) -> usize;

/// The key that slot `key` of a store links to where the slot is vacant:
/// the next key that the store had when the slot was emptied; 0 for an
/// occupied slot or a key past the slots. An operation changes it only at
/// the slot it works on.
pub uninterp spec fn slab_vacant_link(s: Slab<Node>, key: usize) -> usize;

/// `Slab::new`: an empty store, with no slot, whose next key is 0.
#[verifier::external_body]
fn slab_new() -> (r: Slab<Node>)
    ensures
        slab_nodes(r).dom() =~= Set::<usize>::empty(),
        slab_next(r) == 0,
        slab_slots(r) == 0,
{
    Slab::new()
}

/// `Slab::is_empty`: whether the store holds no node.
#[verifier::external_body]
fn slab_is_empty(s: &Slab<Node>) -> (r: bool)
    ensures
        r == (slab_nodes(*s).dom() =~= Set::<usize>::empty()),
{
    s.is_empty()
}

/// `Slab::insert`: stores `node` under the store's next key, which held
/// nothing, and returns that key. Where the next key is one past the last
/// slot, the node takes a new slot at the end and the key after it becomes
/// the next one; where it names a vacant slot, the node fills it and the
/// key that the slot linked to becomes the next one.
#[verifier::external_body]
fn slab_insert(s: &mut Slab<Node>, node: Node) -> (key: usize)
    ensures
        key == slab_next(*old(s)),
        !slab_nodes(*old(s)).dom().contains(key),
        slab_nodes(*final(s)) == slab_nodes(*old(s)).insert(key, node),
        slab_next(*old(s)) == slab_slots(*old(s)) && slab_slots(*old(s)) < usize::MAX ==> {
            &&& slab_slots(*final(s)) == slab_slots(*old(s)) + 1
            &&& slab_next(*final(s)) == key + 1
        },
        slab_next(*old(s)) < slab_slots(*old(s)) ==> {
            &&& slab_slots(*final(s)) == slab_slots(*old(s))
            &&& slab_next(*final(s)) == slab_vacant_link(*old(s), key)
        },
        forall|k: usize| k != key ==> slab_vacant_link(*final(s), k) == slab_vacant_link(*old(s), k),
{
    s.insert(node)
}

/// `Slab::remove`: takes the node under `key` out; the key then holds
/// nothing, its slot links to the former next key, and it becomes the next
/// key itself. It panics on a key that holds nothing.
#[verifier::external_body]
fn slab_remove(s: &mut Slab<Node>, key: usize) -> (r: Node)
    requires
        slab_nodes(*old(s)).dom().contains(key),
    ensures
        r == slab_nodes(*old(s))[key],
        slab_nodes(*final(s)) == slab_nodes(*old(s)).remove(key),
        slab_next(*final(s)) == key,
        slab_vacant_link(*final(s), key) == slab_next(*old(s)),
        slab_slots(*final(s)) == slab_slots(*old(s)),
        forall|k: usize| k != key ==> slab_vacant_link(*final(s), k) == slab_vacant_link(*old(s), k),
{
    s.remove(key)
}

/// `Slab::index`: the node under `key`. It panics on a key that holds
/// nothing.
#[verifier::external_body]
fn slab_get(s: &Slab<Node>, key: usize) -> (r: &Node)
    requires
        slab_nodes(*s).dom().contains(key),
    ensures
        *r == slab_nodes(*s)[key],
{
    &s[key]
}

/// `Slab::index_mut`, through which the node under `key` is exchanged for
/// `node`; the former node is returned. The slots, their links and the
/// next key stay as they were. It panics on a key that holds nothing.
#[verifier::external_body]
fn slab_replace(s: &mut Slab<Node>, key: usize, node: Node) -> (r: Node)
    requires
        slab_nodes(*old(s)).dom().contains(key),
    ensures
        r == slab_nodes(*old(s))[key],
        slab_nodes(*final(s)) == slab_nodes(*old(s)).insert(key, node),
        slab_next(*final(s)) == slab_next(*old(s)),
        slab_slots(*final(s)) == slab_slots(*old(s)),
        forall|k: usize| slab_vacant_link(*final(s), k) == slab_vacant_link(*old(s), k),
{
    core::mem::replace(&mut s[key], node)
}

/// `Slab::iter`, keeping the keys: every key that holds a node, each once,
/// in increasing order.
#[verifier::external_body]
fn slab_keys(s: &Slab<Node>) -> (r: Vec<usize>)
    ensures
        forall|i: int, j: int| 0 <= i < j < r@.len() ==> r@[i] < r@[j],
        forall|k: usize| slab_nodes(*s).dom().contains(k) <==> r@.contains(k),
{
    s.iter().map(|(k, _)| k).collect()
}

// ---------------------------------------------------------------------------
// References to nodes and pins.
// ---------------------------------------------------------------------------

/// The kind of graph, which fixes the side it runs on.
#[derive(Clone, Copy, Debug, PartialEq, Eq, Structural)]
pub enum NodeGraphKind {
    ServerEntity,
}

impl NodeGraphKind {
    pub fn side(&self) -> (r: Side)
        ensures
            r == Side::Server,
    {
        match self {
            NodeGraphKind::ServerEntity => Side::Server,
        }
    }
}

/// The key of a node in its graph.
#[derive(Clone, Copy, Debug, PartialEq, Eq, Structural, Hash)]
pub struct NodeRef(pub usize);

/// The index that the first node of a graph has in an encoded graph.
pub const NODE_ID_BEGIN: i32 = 1;

impl NodeRef {
    /// The node that an encoded graph numbers `value`.
    pub fn decode(value: i32) -> (r: Self)
        requires
            value > i32::MIN,
        ensures
            r.0 == (value - NODE_ID_BEGIN) as usize,
    {
        NodeRef((value - NODE_ID_BEGIN) as usize)
    }

    /// The number of the node in an encoded graph.
    pub fn encode(&self) -> (r: i32)
        requires
            (self.0 as i32) < i32::MAX,
        ensures
            r == (self.0 as i32) + NODE_ID_BEGIN,
    {
        self.0 as i32 + NODE_ID_BEGIN
    }
}

/// Decoding gives back the node that was encoded, for every node that an
/// encoded graph can number.
pub proof fn lemma_node_ref_roundtrip(r: NodeRef)
    requires
        r.0 < i32::MAX,
    ensures
        (((r.0 as i32) + NODE_ID_BEGIN) - NODE_ID_BEGIN) as usize == r.0,
{
}

/// Encoding gives back the number that was decoded, for every number from
/// the first node on.
pub proof fn lemma_node_number_roundtrip(value: i32)
    requires
        value >= NODE_ID_BEGIN,
    ensures
        (((value - NODE_ID_BEGIN) as usize) as i32) + NODE_ID_BEGIN == value,
{
}

/// A pin of a node: the node and the pin's index.
#[derive(Clone, Copy, Debug, PartialEq, Eq, Structural, Hash)]
pub struct Connection(pub NodeRef, pub usize);

impl Connection {
    pub fn node(&self) -> (r: NodeRef)
        ensures
            r == self.0,
    {
        self.0
    }

    pub fn pin(&self) -> (r: usize)
        ensures
            r == self.1,
    {
        self.1
    }
}

/// The other end of a link: a pin of a node of the same graph, or the
/// numbered pin of the graph's own interface.
#[derive(Clone, Copy, Debug, PartialEq, Eq, Structural, Hash)]
pub enum Link {
    Connection(Connection),
    Export(usize),
}

impl Link {
    pub fn connection(self) -> (r: Option<Connection>)
        ensures
            r == (match self {
                Link::Connection(c) => Some(c),
                Link::Export(_) => None::<Connection>,
            }),
    {
        match self {
            Link::Connection(it) => Some(it),
            Link::Export(_) => None,
        }
    }

    pub fn export(self) -> (r: Option<usize>)
        ensures
            r == (match self {
                Link::Connection(_) => None::<usize>,
                Link::Export(it) => Some(it),
            }),
    {
        match self {
            Link::Connection(_) => None,
            Link::Export(it) => Some(it),
        }
    }
}

/// The link to pin `pin` of node `node`.
pub open spec fn conn(node: usize, pin: usize) -> Link {
    Link::Connection(Connection(NodeRef(node), pin))
}

/// The link ends at a pin of node `key`.
pub open spec fn touches(l: Link, key: usize) -> bool {
    l matches Link::Connection(c) && c.0.0 == key
}

/// The test of links other than `l`.
pub open spec fn other_than(l: Link) -> spec_fn(Link) -> bool {
    |x: Link| x != l
}

/// The test of links that do not end at node `key`.
pub open spec fn away_from(key: usize) -> spec_fn(Link) -> bool {
    |x: Link| !touches(x, key)
}

// ---------------------------------------------------------------------------
// Node kinds.
// ---------------------------------------------------------------------------

/// What a node does.
#[derive(Clone, Copy, Debug, PartialEq, Eq, Structural)]
pub enum NodeId {
    /// A node of the game, by its id.
    Low { kind: AssetKind, id: i64 },
    Unreachable,
    Local,
    SetLocal,
    Assemble,
    Destructure,
    Modify,
}

/// How an output value is implemented.
#[derive(Clone, Copy, Debug, PartialEq, Eq, Structural)]
pub enum Implementation {
    Primitive,
    Struct,
}

/// The signature of a node: its id, its numbers of control pins, and the
/// types of its value pins (an input without type takes any value).
#[derive(Debug)]
pub struct NodeKind {
    pub id: NodeId,
    pub kernel_id: i64,
    pub controls_in_num: usize,
    pub controls_out_num: usize,
    pub values_in_types: Vec<Option<AnyValue>>,
    pub values_out_types: Vec<AnyValue>,
    pub selectors_in: Vec<Option<i32>>,
    pub selectors_out: Vec<Option<i32>>,
    pub imps_out: Vec<Implementation>,
    pub references: Vec<Identifier>,
}

fn nones(n: usize) -> (r: Vec<Option<i32>>)
    ensures
        r@.len() == n,
        forall|i: int| 0 <= i < n ==> r@[i] is None,
{
    let mut r: Vec<Option<i32>> = Vec::new();
    let mut i: usize = 0;
    while i < n
        invariant
            i <= n,
            r@.len() == i,
            forall|j: int| 0 <= j < i ==> r@[j] is None,
        decreases n - i,
    {
        r.push(None);
        i = i + 1;
    }
    r
}

/// Both slots are untyped, or both hold types of the same content.
pub open spec fn same_type_slot(a: Option<AnyValue>, b: Option<AnyValue>) -> bool {
    match (a, b) {
        (Some(x), Some(y)) => same_value(x, y),
        (None, None) => true,
        _ => false,
    }
}

/// `a` is a copy of `b`: the same signature, with value types of the same
/// content.
pub open spec fn kind_copy(a: NodeKind, b: NodeKind) -> bool {
    &&& a.id == b.id
    &&& a.kernel_id == b.kernel_id
    &&& a.controls_in_num == b.controls_in_num
    &&& a.controls_out_num == b.controls_out_num
    &&& a.values_in_types@.len() == b.values_in_types@.len()
    &&& forall|i: int|
        0 <= i < a.values_in_types@.len() ==> same_type_slot(#[trigger] a.values_in_types@[i], b.values_in_types@[i])
    &&& a.values_out_types@.len() == b.values_out_types@.len()
    &&& forall|i: int|
        0 <= i < a.values_out_types@.len() ==> same_value(#[trigger] a.values_out_types@[i], b.values_out_types@[i])
    &&& a.selectors_in@ == b.selectors_in@
    &&& a.selectors_out@ == b.selectors_out@
    &&& a.imps_out@ == b.imps_out@
    &&& a.references@ == b.references@
}

impl NodeKind {
    /// A node of the game numbered `id`, with typed inputs.
    pub fn new(
        id: i64,
        controls_in_num: usize,
        controls_out_num: usize,
        values_in_types: Vec<AnyValue>,
        values_out_types: Vec<AnyValue>,
    ) -> (r: Self)
        ensures
            r.id == (NodeId::Low { kind: AssetKind::SysCallStub, id }),
            r.kernel_id == id,
            r.controls_in_num == controls_in_num,
            r.controls_out_num == controls_out_num,
            r.values_in_types@ == values_in_types@.map_values(|v: AnyValue| Some(v)),
            r.values_out_types@ == values_out_types@,
            r.selectors_in@.len() == values_in_types@.len(),
            r.selectors_out@.len() == values_out_types@.len(),
            forall|i: int| 0 <= i < r.selectors_in@.len() ==> r.selectors_in@[i] is None,
            forall|i: int| 0 <= i < r.selectors_out@.len() ==> r.selectors_out@[i] is None,
            r.imps_out@.len() == values_out_types@.len(),
            forall|i: int| 0 <= i < r.imps_out@.len() ==> r.imps_out@[i] == Implementation::Primitive,
            r.references@.len() == 0,
    {
        let ghost types_in = values_in_types@;
        let mut typed: Vec<Option<AnyValue>> = Vec::new();
        let mut rest = values_in_types;
        // Each type is moved into its `Some`, in order.
        let n = rest.len();
        let mut i: usize = 0;
        while i < n
            invariant
                i <= n,
                n == types_in.len(),
                rest@ == types_in.subrange(i as int, n as int),
                typed@ == types_in.subrange(0, i as int).map_values(|v: AnyValue| Some(v)),
            decreases n - i,
        {
            let v = rest.remove(0);
            assert(v == types_in[i as int]);
            typed.push(Some(v));
            assert(rest@ =~= types_in.subrange(i + 1, n as int));
            assert(types_in.subrange(0, i + 1) =~= types_in.subrange(0, i as int).push(
                types_in[i as int],
            ));
            assert(typed@ =~= types_in.subrange(0, i + 1).map_values(|v: AnyValue| Some(v)));
            i = i + 1;
        }
        assert(types_in.subrange(0, n as int) =~= types_in);
        Self::full(
            NodeId::Low { kind: AssetKind::SysCallStub, id },
            id,
            controls_in_num,
            controls_out_num,
            typed,
            values_out_types,
        )
    }

    /// A node with the given signature, no selectors, primitive outputs
    /// and no references.
    pub fn full(
        id: NodeId,
        kernel_id: i64,
        controls_in_num: usize,
        controls_out_num: usize,
        values_in_types: Vec<Option<AnyValue>>,
        values_out_types: Vec<AnyValue>,
    ) -> (r: Self)
        ensures
            r.id == id,
            r.kernel_id == kernel_id,
            r.controls_in_num == controls_in_num,
            r.controls_out_num == controls_out_num,
            r.values_in_types@ == values_in_types@,
            r.values_out_types@ == values_out_types@,
            r.selectors_in@.len() == values_in_types@.len(),
            r.selectors_out@.len() == values_out_types@.len(),
            forall|i: int| 0 <= i < r.selectors_in@.len() ==> r.selectors_in@[i] is None,
            forall|i: int| 0 <= i < r.selectors_out@.len() ==> r.selectors_out@[i] is None,
            r.imps_out@.len() == values_out_types@.len(),
            forall|i: int| 0 <= i < r.imps_out@.len() ==> r.imps_out@[i] == Implementation::Primitive,
            r.references@.len() == 0,
    {
        let selectors_in = nones(values_in_types.len());
        let selectors_out = nones(values_out_types.len());
        let mut imps_out: Vec<Implementation> = Vec::new();
        let mut i: usize = 0;
        while i < values_out_types.len()
            invariant
                i <= values_out_types@.len(),
                imps_out@.len() == i,
                forall|j: int| 0 <= j < i ==> imps_out@[j] == Implementation::Primitive,
            decreases values_out_types@.len() - i,
        {
            imps_out.push(Implementation::Primitive);
            i = i + 1;
        }
        Self {
            id,
            kernel_id,
            controls_in_num,
            controls_out_num,
            values_in_types,
            values_out_types,
            selectors_in,
            selectors_out,
            imps_out,
            references: Vec::new(),
        }
    }

    /// An expression: no control pins, one output.
    pub fn expr(id: i64, values_in_types: Vec<AnyValue>, value_out_type: AnyValue) -> (r: Self)
        ensures
            r.id == (NodeId::Low { kind: AssetKind::SysCallStub, id }),
            r.kernel_id == id,
            r.controls_in_num == 0,
            r.controls_out_num == 0,
            r.values_in_types@ == values_in_types@.map_values(|v: AnyValue| Some(v)),
            r.values_out_types@ == seq![value_out_type],
            r.selectors_in@.len() == r.values_in_types@.len(),
            r.selectors_out@.len() == r.values_out_types@.len(),
            forall|i: int| 0 <= i < r.selectors_in@.len() ==> r.selectors_in@[i] is None,
            forall|i: int| 0 <= i < r.selectors_out@.len() ==> r.selectors_out@[i] is None,
            r.imps_out@.len() == r.values_out_types@.len(),
            forall|i: int| 0 <= i < r.imps_out@.len() ==> r.imps_out@[i] == Implementation::Primitive,
            r.references@.len() == 0,
    {
        let mut out: Vec<AnyValue> = Vec::new();
        out.push(value_out_type);
        let r = Self::new(id, 0, 0, values_in_types, out);
        assert(r.values_out_types@ =~= seq![value_out_type]);
        r
    }

    /// A function: one control pin in and out, one output.
    pub fn func(id: i64, values_in_types: Vec<AnyValue>, value_out_type: AnyValue) -> (r: Self)
        ensures
            r.id == (NodeId::Low { kind: AssetKind::SysCallStub, id }),
            r.kernel_id == id,
            r.controls_in_num == 1,
            r.controls_out_num == 1,
            r.values_in_types@ == values_in_types@.map_values(|v: AnyValue| Some(v)),
            r.values_out_types@ == seq![value_out_type],
            r.selectors_in@.len() == r.values_in_types@.len(),
            r.selectors_out@.len() == r.values_out_types@.len(),
            forall|i: int| 0 <= i < r.selectors_in@.len() ==> r.selectors_in@[i] is None,
            forall|i: int| 0 <= i < r.selectors_out@.len() ==> r.selectors_out@[i] is None,
            r.imps_out@.len() == r.values_out_types@.len(),
            forall|i: int| 0 <= i < r.imps_out@.len() ==> r.imps_out@[i] == Implementation::Primitive,
            r.references@.len() == 0,
    {
        let mut out: Vec<AnyValue> = Vec::new();
        out.push(value_out_type);
        let r = Self::new(id, 1, 1, values_in_types, out);
        assert(r.values_out_types@ =~= seq![value_out_type]);
        r
    }

    /// A procedure: one control pin in and out, no output.
    pub fn procedure(id: i64, values_in_types: Vec<AnyValue>) -> (r: Self)
        ensures
            r.id == (NodeId::Low { kind: AssetKind::SysCallStub, id }),
            r.kernel_id == id,
            r.controls_in_num == 1,
            r.controls_out_num == 1,
            r.values_in_types@ == values_in_types@.map_values(|v: AnyValue| Some(v)),
            r.values_out_types@.len() == 0,
            r.selectors_in@.len() == r.values_in_types@.len(),
            r.selectors_out@.len() == r.values_out_types@.len(),
            forall|i: int| 0 <= i < r.selectors_in@.len() ==> r.selectors_in@[i] is None,
            forall|i: int| 0 <= i < r.selectors_out@.len() ==> r.selectors_out@[i] is None,
            r.imps_out@.len() == r.values_out_types@.len(),
            forall|i: int| 0 <= i < r.imps_out@.len() ==> r.imps_out@[i] == Implementation::Primitive,
            r.references@.len() == 0,
    {
        Self::new(id, 1, 1, values_in_types, Vec::new())
    }

    /// A trigger: one control pin out, the given outputs, no inputs.
    pub fn trigger(id: i64, value_out_type: Vec<AnyValue>) -> (r: Self)
        ensures
            r.id == (NodeId::Low { kind: AssetKind::SysCallStub, id }),
            r.kernel_id == id,
            r.controls_in_num == 0,
            r.controls_out_num == 1,
            r.values_in_types@.len() == 0,
            r.values_out_types@ == value_out_type@,
            r.selectors_in@.len() == r.values_in_types@.len(),
            r.selectors_out@.len() == r.values_out_types@.len(),
            forall|i: int| 0 <= i < r.selectors_in@.len() ==> r.selectors_in@[i] is None,
            forall|i: int| 0 <= i < r.selectors_out@.len() ==> r.selectors_out@[i] is None,
            r.imps_out@.len() == r.values_out_types@.len(),
            forall|i: int| 0 <= i < r.imps_out@.len() ==> r.imps_out@[i] == Implementation::Primitive,
            r.references@.len() == 0,
    {
        let r = Self::new(id, 0, 1, Vec::new(), value_out_type);
        assert(r.values_in_types@ =~= Seq::<Option<AnyValue>>::empty());
        r
    }

    /// The identifier of the node's outer shape; only a node of the game
    /// has one.
    pub fn encode_shell(&self) -> (r: Identifier)
        requires
            self.id is Low,
        ensures
            r == (Identifier {
                source: Source::SystemDefined,
                category: Category::ServerBasic,
                kind: self.id->kind,
                guid: 0,
                runtime_id: self.id->Low_id,
            }),
    {
        match self.id {
            NodeId::Low { id, kind } => Identifier {
                source: Source::SystemDefined,
                category: Category::ServerBasic,
                kind,
                guid: 0,
                runtime_id: id,
            },
            _ => {
                proof {
                    assert(false);
                }
                Identifier {
                    source: Source::SystemDefined,
                    category: Category::ServerBasic,
                    kind: AssetKind::Unspecified,
                    guid: 0,
                    runtime_id: 0,
                }
            },
        }
    }

    /// The identifier of the node's implementation: the shell's, with the
    /// kernel id; none when the kernel id is 0.
    pub fn encode_kernel(&self) -> (r: Option<Identifier>)
        requires
            self.id is Low,
        ensures
            self.kernel_id == 0 ==> r is None,
            self.kernel_id != 0 ==> r == Some(
                Identifier {
                    source: Source::SystemDefined,
                    category: Category::ServerBasic,
                    kind: self.id->kind,
                    guid: 0,
                    runtime_id: self.kernel_id,
                },
            ),
    {
        if self.kernel_id == 0 {
            return None;
        }
        let shell = self.encode_shell();
        Some(Identifier { runtime_id: self.kernel_id, ..shell })
    }

    /// A copy of the kind, whose value types hold the same content.
    pub fn duplicate(&self) -> (r: Self)
        ensures
            kind_copy(r, *self),
    {
        let mut values_in_types: Vec<Option<AnyValue>> = Vec::new();
        let mut i: usize = 0;
        while i < self.values_in_types.len()
            invariant
                i <= self.values_in_types@.len(),
                values_in_types@.len() == i,
                forall|j: int|
                    0 <= j < i ==> same_type_slot(#[trigger] values_in_types@[j], self.values_in_types@[j]),
            decreases self.values_in_types@.len() - i,
        {
            let t = match &self.values_in_types[i] {
                Some(t) => Some(t.duplicate()),
                None => None,
            };
            values_in_types.push(t);
            i = i + 1;
        }
        let mut values_out_types: Vec<AnyValue> = Vec::new();
        let mut i: usize = 0;
        while i < self.values_out_types.len()
            invariant
                i <= self.values_out_types@.len(),
                values_out_types@.len() == i,
                forall|j: int|
                    0 <= j < i ==> same_value(#[trigger] values_out_types@[j], self.values_out_types@[j]),
            decreases self.values_out_types@.len() - i,
        {
            values_out_types.push(self.values_out_types[i].duplicate());
            i = i + 1;
        }
        NodeKind {
            id: self.id,
            kernel_id: self.kernel_id,
            controls_in_num: self.controls_in_num,
            controls_out_num: self.controls_out_num,
            values_in_types,
            values_out_types,
            selectors_in: copy_all(&self.selectors_in),
            selectors_out: copy_all(&self.selectors_out),
            imps_out: copy_all(&self.imps_out),
            references: copy_all(&self.references),
        }
    }
}

} // verus!

verus! {

// ---------------------------------------------------------------------------
// Nodes.
// ---------------------------------------------------------------------------

/// A value input: the value it has when nothing is linked to it, and what
/// is linked to it.
#[derive(Debug)]
pub struct ValueIn {
    pub default: Option<AnyValue>,
    pub link: Option<Link>,
}

impl ValueIn {
    /// An input with the given value and no link.
    pub fn value(default: AnyValue) -> (r: Self)
        ensures
            r.default == Some(default),
            r.link is None,
    {
        Self { default: Some(default), link: None }
    }

    /// An input linked to `link`, without value.
    pub fn link(link: Link) -> (r: Self)
        ensures
            r.default is None,
            r.link == Some(link),
    {
        Self { default: None, link: Some(link) }
    }

    /// Neither a value nor a link.
    pub fn is_unset(&self) -> (r: bool)
        ensures
            r == (self.default is None && self.link is None),
    {
        self.default.is_none() && self.link.is_none()
    }
}

impl Default for ValueIn {
    fn default() -> (r: Self)
        ensures
            r.default is None,
            r.link is None,
    {
        Self { default: None, link: None }
    }
}

/// A node of a graph: its kind, and the links of each of its pins.
#[derive(Debug)]
pub struct Node {
    pub kind: NodeKind,
    pub controls_in: Vec<Vec<Link>>,
    pub controls_out: Vec<Vec<Link>>,
    pub values_in: Vec<ValueIn>,
    pub values_out: Vec<Vec<Link>>,
}

/// A node as a mathematical value.
#[verifier::ext_equal]
pub struct NodeView {
    pub kind: NodeKind,
    pub controls_in: Seq<Seq<Link>>,
    pub controls_out: Seq<Seq<Link>>,
    pub values_in: Seq<ValueIn>,
    pub values_out: Seq<Seq<Link>>,
}

pub open spec fn lists_view(v: Seq<Vec<Link>>) -> Seq<Seq<Link>> {
    v.map_values(|l: Vec<Link>| l@)
}

impl View for Node {
    type V = NodeView;

    open spec fn view(&self) -> NodeView {
        NodeView {
            kind: self.kind,
            controls_in: lists_view(self.controls_in@),
            controls_out: lists_view(self.controls_out@),
            values_in: self.values_in@,
            values_out: lists_view(self.values_out@),
        }
    }
}

/// `n` lists without links.
fn empty_lists(n: usize) -> (r: Vec<Vec<Link>>)
    ensures
        r@.len() == n,
        forall|i: int| 0 <= i < n ==> r@[i]@.len() == 0,
{
    let mut r: Vec<Vec<Link>> = Vec::new();
    let mut i: usize = 0;
    while i < n
        invariant
            i <= n,
            r@.len() == i,
            forall|j: int| 0 <= j < i ==> r@[j]@.len() == 0,
        decreases n - i,
    {
        r.push(Vec::new());
        i = i + 1;
    }
    r
}

/// Appends `l` to list `i`.
fn push_link(lists: &mut Vec<Vec<Link>>, i: usize, l: Link)
    requires
        i < old(lists)@.len(),
    ensures
        lists_view(final(lists)@) == lists_view(old(lists)@).update(
            i as int,
            old(lists)@[i as int]@.push(l),
        ),
{
    lists[i].push(l);
    assert(lists_view(lists@) =~= lists_view(old(lists)@).update(
        i as int,
        old(lists)@[i as int]@.push(l),
    ));
}

/// A node of kind `kind` with no links and unset inputs.
pub open spec fn fresh(n: NodeView) -> bool {
    &&& n.controls_in.len() == n.kind.controls_in_num
    &&& n.controls_out.len() == n.kind.controls_out_num
    &&& n.values_in.len() == n.kind.values_in_types@.len()
    &&& n.values_out.len() == n.kind.values_out_types@.len()
    &&& forall|i: int| 0 <= i < n.controls_in.len() ==> (#[trigger] n.controls_in[i]).len() == 0
    &&& forall|i: int| 0 <= i < n.controls_out.len() ==> (#[trigger] n.controls_out[i]).len() == 0
    &&& forall|i: int| 0 <= i < n.values_out.len() ==> (#[trigger] n.values_out[i]).len() == 0
    &&& forall|i: int|
        0 <= i < n.values_in.len() ==> (#[trigger] n.values_in[i]).default is None
            && n.values_in[i].link is None
    &&& n.values_in.len() <= usize::MAX
    &&& n.values_out.len() <= usize::MAX
}

impl Node {
    /// A node of kind `kind` with no links and unset inputs.
    pub fn new(kind: NodeKind) -> (r: Node)
        ensures
            r@.kind == kind,
            fresh(r@),
    {
        let controls_in = empty_lists(kind.controls_in_num);
        let controls_out = empty_lists(kind.controls_out_num);
        let values_out = empty_lists(kind.values_out_types.len());
        let mut values_in: Vec<ValueIn> = Vec::new();
        let mut i: usize = 0;
        while i < kind.values_in_types.len()
            invariant
                i <= kind.values_in_types@.len(),
                values_in@.len() == i,
                forall|j: int| 0 <= j < i ==> (#[trigger] values_in@[j]).default is None
                    && values_in@[j].link is None,
            decreases kind.values_in_types@.len() - i,
        {
            values_in.push(ValueIn { default: None, link: None });
            i = i + 1;
        }
        Node { kind, controls_in, controls_out, values_in, values_out }
    }
}

} // verus!

verus! {

// ---------------------------------------------------------------------------
// Well-formed graphs: every link is kept on both of its ends.
// ---------------------------------------------------------------------------

/// The pins of a node have the counts its kind gives.
pub open spec fn shape_ok(n: NodeView) -> bool {
    &&& n.controls_in.len() == n.kind.controls_in_num
    &&& n.controls_out.len() == n.kind.controls_out_num
    &&& n.values_in.len() == n.kind.values_in_types@.len()
    &&& n.values_out.len() == n.kind.values_out_types@.len()
    &&& n.values_in.len() <= usize::MAX
    &&& n.values_out.len() <= usize::MAX
}

/// The link of value input `i` of node `k` is kept at its source.
pub open spec fn value_in_ok(m: Map<usize, NodeView>, k: usize, i: int) -> bool {
    match m[k].values_in[i].link {
        Some(Link::Connection(c)) => {
            &&& m.dom().contains(c.0.0)
            &&& c.1 < m[c.0.0].values_out.len()
            &&& m[c.0.0].values_out[c.1 as int].contains(conn(k, i as usize))
        },
        _ => true,
    }
}

/// Link `t` of value output `j` of node `k` is the link of its target.
pub open spec fn value_out_ok(m: Map<usize, NodeView>, k: usize, j: int, t: int) -> bool {
    match m[k].values_out[j][t] {
        Link::Connection(c) => {
            &&& m.dom().contains(c.0.0)
            &&& c.1 < m[c.0.0].values_in.len()
            &&& m[c.0.0].values_in[c.1 as int].link == Some(conn(k, j as usize))
        },
        _ => true,
    }
}

/// Link `t` of control output `j` of node `k` is kept at its target.
pub open spec fn control_out_ok(m: Map<usize, NodeView>, k: usize, j: int, t: int) -> bool {
    match m[k].controls_out[j][t] {
        Link::Connection(c) => {
            &&& m.dom().contains(c.0.0)
            &&& c.1 < m[c.0.0].controls_in.len()
            &&& m[c.0.0].controls_in[c.1 as int].contains(conn(k, j as usize))
        },
        _ => true,
    }
}

/// Link `t` of control input `i` of node `k` is kept at its source.
pub open spec fn control_in_ok(m: Map<usize, NodeView>, k: usize, i: int, t: int) -> bool {
    match m[k].controls_in[i][t] {
        Link::Connection(c) => {
            &&& m.dom().contains(c.0.0)
            &&& c.1 < m[c.0.0].controls_out.len()
            &&& m[c.0.0].controls_out[c.1 as int].contains(conn(k, i as usize))
        },
        _ => true,
    }
}

/// Every node has its shape, and every link between nodes is kept on both
/// of its ends.
pub open spec fn wf(m: Map<usize, NodeView>) -> bool {
    &&& forall|k: usize| #[trigger] m.dom().contains(k) ==> shape_ok(m[k])
    &&& forall|k: usize, i: int|
        m.dom().contains(k) && 0 <= i < m[k].values_in.len() ==> #[trigger] value_in_ok(m, k, i)
    &&& forall|k: usize, j: int, t: int|
        m.dom().contains(k) && 0 <= j < m[k].values_out.len() && 0 <= t
            < m[k].values_out[j].len() ==> #[trigger] value_out_ok(m, k, j, t)
    &&& forall|k: usize, j: int, t: int|
        m.dom().contains(k) && 0 <= j < m[k].controls_out.len() && 0 <= t
            < m[k].controls_out[j].len() ==> #[trigger] control_out_ok(m, k, j, t)
    &&& forall|k: usize, i: int, t: int|
        m.dom().contains(k) && 0 <= i < m[k].controls_in.len() && 0 <= t
            < m[k].controls_in[i].len() ==> #[trigger] control_in_ok(m, k, i, t)
}

/// The node with list `j` of its control outputs extended by `l`.
pub open spec fn with_control_out(n: NodeView, j: int, l: Link) -> NodeView {
    NodeView { controls_out: n.controls_out.update(j, n.controls_out[j].push(l)), ..n }
}

/// The node with list `i` of its control inputs extended by `l`.
pub open spec fn with_control_in(n: NodeView, i: int, l: Link) -> NodeView {
    NodeView { controls_in: n.controls_in.update(i, n.controls_in[i].push(l)), ..n }
}

/// The node with list `j` of its value outputs extended by `l`.
pub open spec fn with_value_out(n: NodeView, j: int, l: Link) -> NodeView {
    NodeView { values_out: n.values_out.update(j, n.values_out[j].push(l)), ..n }
}

/// The node with list `j` of its value outputs without the links equal to
/// `l`.
pub open spec fn without_value_out(n: NodeView, j: int, l: Link) -> NodeView {
    NodeView { values_out: n.values_out.update(j, n.values_out[j].filter(other_than(l))), ..n }
}

/// The node with input `i` linked to `l`, its value kept.
pub open spec fn with_value_link(n: NodeView, i: int, l: Option<Link>) -> NodeView {
    NodeView {
        values_in: n.values_in.update(i, ValueIn { default: n.values_in[i].default, link: l }),
        ..n
    }
}

/// The node with input `i` holding `v`, its link kept.
pub open spec fn with_value_default(n: NodeView, i: int, v: AnyValue) -> NodeView {
    NodeView {
        values_in: n.values_in.update(i, ValueIn { default: Some(v), link: n.values_in[i].link }),
        ..n
    }
}

/// The graph after `from` is linked to `to` by control.
pub open spec fn connect_control_spec(
    m: Map<usize, NodeView>,
    from: Connection,
    to: Connection,
) -> Map<usize, NodeView> {
    let m1 = m.insert(from.0.0, with_control_out(m[from.0.0], from.1 as int, Link::Connection(to)));
    m1.insert(to.0.0, with_control_in(m1[to.0.0], to.1 as int, Link::Connection(from)))
}

/// The graph after input `to` loses its link: the link's source no longer
/// lists `to`.
pub open spec fn unlink_value_in_spec(m: Map<usize, NodeView>, to: Connection) -> Map<
    usize,
    NodeView,
> {
    match m[to.0.0].values_in[to.1 as int].link {
        Some(Link::Connection(c)) => m.insert(
            c.0.0,
            without_value_out(m[c.0.0], c.1 as int, Link::Connection(to)),
        ),
        _ => m,
    }
}

/// The graph after output `from` is linked to input `to`, whose former
/// link is dropped.
pub open spec fn connect_value_spec(
    m: Map<usize, NodeView>,
    from: Connection,
    to: Connection,
) -> Map<usize, NodeView> {
    let m1 = unlink_value_in_spec(m, to);
    let m2 = m1.insert(from.0.0, with_value_out(m1[from.0.0], from.1 as int, Link::Connection(to)));
    m2.insert(to.0.0, with_value_link(m2[to.0.0], to.1 as int, Some(Link::Connection(from))))
}

/// The graph after input `inner` is linked to pin `outer` of the graph's
/// interface, its former link dropped.
pub open spec fn export_value_in_spec(
    m: Map<usize, NodeView>,
    inner: Connection,
    outer: usize,
) -> Map<usize, NodeView> {
    let m1 = unlink_value_in_spec(m, inner);
    m1.insert(inner.0.0, with_value_link(m1[inner.0.0], inner.1 as int, Some(Link::Export(outer))))
}

/// A place in a graph where pin `pin` of a value input exists.
pub open spec fn value_in_at(m: Map<usize, NodeView>, c: Connection) -> bool {
    m.dom().contains(c.0.0) && c.1 < m[c.0.0].values_in.len()
}

pub open spec fn value_out_at(m: Map<usize, NodeView>, c: Connection) -> bool {
    m.dom().contains(c.0.0) && c.1 < m[c.0.0].values_out.len()
}

pub open spec fn control_in_at(m: Map<usize, NodeView>, c: Connection) -> bool {
    m.dom().contains(c.0.0) && c.1 < m[c.0.0].controls_in.len()
}

pub open spec fn control_out_at(m: Map<usize, NodeView>, c: Connection) -> bool {
    m.dom().contains(c.0.0) && c.1 < m[c.0.0].controls_out.len()
}

} // verus!

verus! {

// ---------------------------------------------------------------------------
// Graphs.
// ---------------------------------------------------------------------------

/// A node graph: its kind, its name, and its nodes by key.
pub struct NodeGraph {
    pub class: NodeGraphKind,
    pub name: String,
    pub nodes: Slab<Node>,
}

impl View for NodeGraph {
    type V = Map<usize, NodeView>;

    open spec fn view(&self) -> Map<usize, NodeView> {
        slab_nodes(self.nodes).map_values(|n: Node| n@)
    }
}

/// A node that stands in the place of one being changed: an unreachable
/// node without pins, links or references.
fn placeholder() -> (r: Node)
    ensures
        r@.kind.id == NodeId::Unreachable,
        r@.kind.kernel_id == 0,
        r@.kind.controls_in_num == 0,
        r@.kind.controls_out_num == 0,
        r@.kind.values_in_types@.len() == 0,
        r@.kind.values_out_types@.len() == 0,
        r@.kind.selectors_in@.len() == 0,
        r@.kind.selectors_out@.len() == 0,
        r@.kind.imps_out@.len() == 0,
        r@.kind.references@.len() == 0,
        r@.controls_in.len() == 0,
        r@.controls_out.len() == 0,
        r@.values_in.len() == 0,
        r@.values_out.len() == 0,
{
    let kind = NodeKind {
        id: NodeId::Unreachable,
        kernel_id: 0,
        controls_in_num: 0,
        controls_out_num: 0,
        values_in_types: Vec::new(),
        values_out_types: Vec::new(),
        selectors_in: Vec::new(),
        selectors_out: Vec::new(),
        imps_out: Vec::new(),
        references: Vec::new(),
    };
    Node::new(kind)
}

proof fn lemma_view_insert(s: Map<usize, Node>, k: usize, n: Node)
    ensures
        s.insert(k, n).map_values(|x: Node| x@) == s.map_values(|x: Node| x@).insert(k, n@),
{
    assert(s.insert(k, n).map_values(|x: Node| x@) =~= s.map_values(|x: Node| x@).insert(k, n@));
}

proof fn lemma_view_remove(s: Map<usize, Node>, k: usize)
    ensures
        s.remove(k).map_values(|x: Node| x@) == s.map_values(|x: Node| x@).remove(k),
{
    assert(s.remove(k).map_values(|x: Node| x@) =~= s.map_values(|x: Node| x@).remove(k));
}

impl NodeGraph {
    /// The key that the next node inserted takes.
    pub open spec fn next_key(&self) -> usize {
        slab_next(self.nodes)
    }

    /// Whether the keys in use are exactly those below the next key, with
    /// no vacant slot among them: so each insert takes the next key, and
    /// the key after it comes next. A graph that nothing was removed from
    /// is so.
    pub open spec fn keys_dense(&self) -> bool {
        &&& slab_next(self.nodes) == slab_slots(self.nodes)
        &&& forall|k: usize| #[trigger] self@.dom().contains(k) <==> k < slab_next(self.nodes)
    }

    /// An empty graph.
    pub fn new(class: NodeGraphKind, name: String) -> (r: Self)
        ensures
            r.class == class,
            r.name == name,
            r@ == Map::<usize, NodeView>::empty(),
            wf(r@),
            r.keys_dense(),
            r.next_key() == 0,
    {
        let nodes = slab_new();
        let r = Self { class, name, nodes };
        assert(r@ =~= Map::<usize, NodeView>::empty());
        r
    }

    pub fn is_empty(&self) -> (r: bool)
        ensures
            r == (self@.dom() =~= Set::<usize>::empty()),
    {
        slab_is_empty(&self.nodes)
    }

    pub fn get_node(&self, key: NodeRef) -> (r: &Node)
        requires
            self@.dom().contains(key.0),
        ensures
            r@ == self@[key.0],
    {
        slab_get(&self.nodes, key.0)
    }

    /// The keys of the nodes, in increasing order.
    pub fn get_nodes(&self) -> (r: Vec<NodeRef>)
        ensures
            forall|i: int, j: int| 0 <= i < j < r@.len() ==> r@[i].0 < r@[j].0,
            forall|k: usize| self@.dom().contains(k) <==> r@.contains(NodeRef(k)),
    {
        let keys = slab_keys(&self.nodes);
        let mut r: Vec<NodeRef> = Vec::new();
        let mut i: usize = 0;
        while i < keys.len()
            invariant
                i <= keys@.len(),
                r@.len() == i,
                forall|j: int| 0 <= j < i ==> r@[j] == NodeRef(keys@[j]),
            decreases keys@.len() - i,
        {
            r.push(NodeRef(keys[i]));
            i = i + 1;
        }
        assert forall|k: usize| self@.dom().contains(k) <==> r@.contains(NodeRef(k)) by {
            if keys@.contains(k) {
                let j = choose|j: int| 0 <= j < keys@.len() && keys@[j] == k;
                assert(r@[j] == NodeRef(k));
            }
            if r@.contains(NodeRef(k)) {
                let j = choose|j: int| 0 <= j < r@.len() && r@[j] == NodeRef(k);
                assert(keys@[j] == k);
            }
        }
        r
    }

    /// Takes node `key` out, leaving a stand-in in its place.
    fn take_node(&mut self, key: usize) -> (r: Node)
        requires
            old(self)@.dom().contains(key),
        ensures
            r@ == old(self)@[key],
            final(self)@ == old(self)@.insert(key, final(self)@[key]),
            final(self).class == old(self).class,
            final(self).name == old(self).name,
            slab_next(final(self).nodes) == slab_next(old(self).nodes),
            slab_slots(final(self).nodes) == slab_slots(old(self).nodes),
            final(self).keys_dense() == old(self).keys_dense(),
    {
        let p = placeholder();
        let ghost pv = p@;
        proof {
            lemma_view_insert(slab_nodes(self.nodes), key, p);
        }
        let r = slab_replace(&mut self.nodes, key, p);
        assert(self@.dom() =~= old(self)@.dom());
        r
    }

    /// Puts `node` in the place of node `key`.
    fn put_node(&mut self, key: usize, node: Node)
        requires
            old(self)@.dom().contains(key),
        ensures
            final(self)@ == old(self)@.insert(key, node@),
            final(self).class == old(self).class,
            final(self).name == old(self).name,
            slab_next(final(self).nodes) == slab_next(old(self).nodes),
            slab_slots(final(self).nodes) == slab_slots(old(self).nodes),
            final(self).keys_dense() == old(self).keys_dense(),
    {
        proof {
            lemma_view_insert(slab_nodes(self.nodes), key, node);
        }
        let _ = slab_replace(&mut self.nodes, key, node);
        assert(self@.dom() =~= old(self)@.dom());
    }

    /// Adds `node` under the graph's next key, which it returns. In a graph
    /// whose keys are dense the keys stay dense and the next key moves one
    /// up, so a fresh graph gives its nodes the keys 0, 1, 2, ...
    pub fn insert(&mut self, node: Node) -> (r: NodeRef)
        ensures
            r.0 == old(self).next_key(),
            old(self).keys_dense() && old(self).next_key() < usize::MAX ==> {
                &&& final(self).keys_dense()
                &&& final(self).next_key() == r.0 + 1
            },
            !old(self)@.dom().contains(r.0),
            final(self)@ == old(self)@.insert(r.0, node@),
            wf(old(self)@) && fresh(node@) ==> wf(final(self)@),
            final(self).class == old(self).class,
            final(self).name == old(self).name,
    {
        let ghost nv = node@;
        let ghost before = slab_nodes(self.nodes);
        let key = slab_insert(&mut self.nodes, node);
        proof {
            lemma_view_insert(before, key, node);
            if old(self).keys_dense() && old(self).next_key() < usize::MAX {
                assert forall|k: usize| #[trigger] self@.dom().contains(k) <==> k < slab_next(
                    self.nodes,
                ) by {
                    if k != key {
                        assert(old(self)@.dom().contains(k) <==> k < key);
                    }
                }
            }
            let m = old(self)@;
            let m2 = self@;
            if wf(m) && fresh(nv) {
                assert forall|k: usize| #[trigger] m2.dom().contains(k) implies shape_ok(m2[k]) by {
                    if k != key {
                        assert(m.dom().contains(k));
                    }
                }
                assert forall|k: usize, i: int|
                    m2.dom().contains(k) && 0 <= i < m2[k].values_in.len() implies #[trigger] value_in_ok(
                    m2,
                    k,
                    i,
                ) by {
                    if k != key {
                        assert(value_in_ok(m, k, i));
                        if let Some(Link::Connection(c)) = m[k].values_in[i].link {
                            assert(c.0.0 != key);
                        }
                    }
                }
                assert forall|k: usize, j: int, t: int|
                    m2.dom().contains(k) && 0 <= j < m2[k].values_out.len() && 0 <= t
                        < m2[k].values_out[j].len() implies #[trigger] value_out_ok(m2, k, j, t) by {
                    if k != key {
                        assert(value_out_ok(m, k, j, t));
                    }
                }
                assert forall|k: usize, j: int, t: int|
                    m2.dom().contains(k) && 0 <= j < m2[k].controls_out.len() && 0 <= t
                        < m2[k].controls_out[j].len() implies #[trigger] control_out_ok(m2, k, j, t) by {
                    if k != key {
                        assert(control_out_ok(m, k, j, t));
                    }
                }
                assert forall|k: usize, i: int, t: int|
                    m2.dom().contains(k) && 0 <= i < m2[k].controls_in.len() && 0 <= t
                        < m2[k].controls_in[i].len() implies #[trigger] control_in_ok(m2, k, i, t) by {
                    if k != key {
                        assert(control_in_ok(m, k, i, t));
                    }
                }
            }
        }
        NodeRef(key)
    }
}

} // verus!

verus! {

/// Links are only added: every list of the first graph is a prefix of the
/// same list of the second, nodes and inputs stay.
pub open spec fn grows(m: Map<usize, NodeView>, m2: Map<usize, NodeView>) -> bool {
    &&& m2.dom() == m.dom()
    &&& forall|k: usize|
        #[trigger] m.dom().contains(k) ==> {
            &&& m2[k].kind == m[k].kind
            &&& m2[k].values_in == m[k].values_in
            &&& m2[k].values_out == m[k].values_out
            &&& m2[k].controls_in.len() == m[k].controls_in.len()
            &&& m2[k].controls_out.len() == m[k].controls_out.len()
            &&& forall|i: int|
                0 <= i < m[k].controls_in.len() ==> #[trigger] m2[k].controls_in[i].len()
                    >= m[k].controls_in[i].len() && m2[k].controls_in[i].subrange(
                    0,
                    m[k].controls_in[i].len() as int,
                ) == m[k].controls_in[i]
            &&& forall|j: int|
                0 <= j < m[k].controls_out.len() ==> #[trigger] m2[k].controls_out[j].len()
                    >= m[k].controls_out[j].len() && m2[k].controls_out[j].subrange(
                    0,
                    m[k].controls_out[j].len() as int,
                ) == m[k].controls_out[j]
        }
}

proof fn lemma_prefix_contains(a: Seq<Link>, b: Seq<Link>, l: Link)
    requires
        b.len() >= a.len(),
        b.subrange(0, a.len() as int) == a,
        a.contains(l),
    ensures
        b.contains(l),
{
    let i = choose|i: int| 0 <= i < a.len() && a[i] == l;
    assert(b.subrange(0, a.len() as int)[i] == b[i]);
}

/// Linking `from` to `to` by control keeps a graph well formed.
pub(crate) proof fn lemma_connect_control_wf(m: Map<usize, NodeView>, from: Connection, to: Connection)
    requires
        wf(m),
        control_out_at(m, from),
        control_in_at(m, to),
        from.0.0 != to.0.0,
    ensures
        wf(connect_control_spec(m, from, to)),
        grows(m, connect_control_spec(m, from, to)),
{
    let m2 = connect_control_spec(m, from, to);
    let f = from.0.0;
    let t = to.0.0;
    assert(m2.dom() =~= m.dom());
    assert forall|k: usize| #[trigger] m.dom().contains(k) implies {
        &&& m2[k].kind == m[k].kind
        &&& m2[k].values_in == m[k].values_in
        &&& m2[k].values_out == m[k].values_out
        &&& m2[k].controls_in.len() == m[k].controls_in.len()
        &&& m2[k].controls_out.len() == m[k].controls_out.len()
        &&& forall|i: int|
            0 <= i < m[k].controls_in.len() ==> #[trigger] m2[k].controls_in[i].len()
                >= m[k].controls_in[i].len() && m2[k].controls_in[i].subrange(
                0,
                m[k].controls_in[i].len() as int,
            ) == m[k].controls_in[i]
        &&& forall|j: int|
            0 <= j < m[k].controls_out.len() ==> #[trigger] m2[k].controls_out[j].len()
                >= m[k].controls_out[j].len() && m2[k].controls_out[j].subrange(
                0,
                m[k].controls_out[j].len() as int,
            ) == m[k].controls_out[j]
    } by {
        assert forall|i: int| 0 <= i < m[k].controls_in.len() implies #[trigger] m2[k].controls_in[i].len()
            >= m[k].controls_in[i].len() && m2[k].controls_in[i].subrange(
            0,
            m[k].controls_in[i].len() as int,
        ) == m[k].controls_in[i] by {
            assert(m2[k].controls_in[i].subrange(0, m[k].controls_in[i].len() as int)
                =~= m[k].controls_in[i]);
        }
        assert forall|j: int| 0 <= j < m[k].controls_out.len() implies #[trigger] m2[k].controls_out[j].len()
            >= m[k].controls_out[j].len() && m2[k].controls_out[j].subrange(
            0,
            m[k].controls_out[j].len() as int,
        ) == m[k].controls_out[j] by {
            assert(m2[k].controls_out[j].subrange(0, m[k].controls_out[j].len() as int)
                =~= m[k].controls_out[j]);
        }
    }
    lemma_grows_wf_except_new(m, m2);
    assert forall|k: usize, j: int, x: int|
        m2.dom().contains(k) && 0 <= j < m2[k].controls_out.len() && 0 <= x
            < m2[k].controls_out[j].len() implies #[trigger] control_out_ok(m2, k, j, x) by {
        if x >= m[k].controls_out[j].len() {
            assert(k == f && j == from.1 && m2[k].controls_out[j][x] == Link::Connection(to));
            assert(m2[t].controls_in[to.1 as int].last() == conn(f, j as usize));
        } else {
            assert(m2[k].controls_out[j][x] == m[k].controls_out[j][x]);
            assert(control_out_ok(m, k, j, x));
            if let Link::Connection(c) = m[k].controls_out[j][x] {
                assert(m.dom().contains(c.0.0));
                assert(m2[c.0.0].controls_in[c.1 as int].len() >= m[c.0.0].controls_in[c.1 as int].len());
                lemma_prefix_contains(
                    m[c.0.0].controls_in[c.1 as int],
                    m2[c.0.0].controls_in[c.1 as int],
                    conn(k, j as usize),
                );
            }
        }
    }
    assert forall|k: usize, i: int, x: int|
        m2.dom().contains(k) && 0 <= i < m2[k].controls_in.len() && 0 <= x
            < m2[k].controls_in[i].len() implies #[trigger] control_in_ok(m2, k, i, x) by {
        if x >= m[k].controls_in[i].len() {
            assert(k == t && i == to.1 && m2[k].controls_in[i][x] == Link::Connection(from));
            assert(m2[f].controls_out[from.1 as int].last() == conn(t, i as usize));
        } else {
            assert(m2[k].controls_in[i][x] == m[k].controls_in[i][x]);
            assert(control_in_ok(m, k, i, x));
            if let Link::Connection(c) = m[k].controls_in[i][x] {
                assert(m.dom().contains(c.0.0));
                assert(m2[c.0.0].controls_out[c.1 as int].len() >= m[c.0.0].controls_out[c.1 as int].len());
                lemma_prefix_contains(
                    m[c.0.0].controls_out[c.1 as int],
                    m2[c.0.0].controls_out[c.1 as int],
                    conn(k, i as usize),
                );
            }
        }
    }
}

/// When links are only added, shapes and value links stay well formed.
proof fn lemma_grows_wf_except_new(m: Map<usize, NodeView>, m2: Map<usize, NodeView>)
    requires
        wf(m),
        grows(m, m2),
    ensures
        forall|k: usize| #[trigger] m2.dom().contains(k) ==> shape_ok(m2[k]),
        forall|k: usize, i: int|
            m2.dom().contains(k) && 0 <= i < m2[k].values_in.len() ==> #[trigger] value_in_ok(
                m2,
                k,
                i,
            ),
        forall|k: usize, j: int, t: int|
            m2.dom().contains(k) && 0 <= j < m2[k].values_out.len() && 0 <= t
                < m2[k].values_out[j].len() ==> #[trigger] value_out_ok(m2, k, j, t),
{
    assert forall|k: usize, i: int|
        m2.dom().contains(k) && 0 <= i < m2[k].values_in.len() implies #[trigger] value_in_ok(
        m2,
        k,
        i,
    ) by {
        assert(value_in_ok(m, k, i));
        if let Some(Link::Connection(c)) = m[k].values_in[i].link {
            assert(m.dom().contains(c.0.0));
        }
    }
    assert forall|k: usize, j: int, t: int|
        m2.dom().contains(k) && 0 <= j < m2[k].values_out.len() && 0 <= t
            < m2[k].values_out[j].len() implies #[trigger] value_out_ok(m2, k, j, t) by {
        assert(value_out_ok(m, k, j, t));
        if let Link::Connection(c) = m[k].values_out[j][t] {
            assert(m.dom().contains(c.0.0));
        }
    }
}

impl NodeGraph {
    /// Links control output `from` to control input `to`, on both ends.
    pub fn connect_control(&mut self, from: Connection, to: Connection)
        requires
            wf(old(self)@),
            control_out_at(old(self)@, from),
            control_in_at(old(self)@, to),
            from.0.0 != to.0.0,
        ensures
            final(self)@ == connect_control_spec(old(self)@, from, to),
            wf(final(self)@),
            final(self).class == old(self).class,
            final(self).name == old(self).name,
            final(self).next_key() == old(self).next_key(),
            final(self).keys_dense() == old(self).keys_dense(),
    {
        let ghost m = self@;
        let mut f = self.take_node(from.0.0);
        push_link(&mut f.controls_out, from.1, Link::Connection(to));
        assert(f@ =~= with_control_out(m[from.0.0], from.1 as int, Link::Connection(to)));
        self.put_node(from.0.0, f);
        let mut t = self.take_node(to.0.0);
        let ghost m1 = m.insert(from.0.0, with_control_out(m[from.0.0], from.1 as int, Link::Connection(to)));
        push_link(&mut t.controls_in, to.1, Link::Connection(from));
        assert(t@ =~= with_control_in(m1[to.0.0], to.1 as int, Link::Connection(from)));
        self.put_node(to.0.0, t);
        proof {
            assert(self@ =~= connect_control_spec(m, from, to));
            lemma_connect_control_wf(m, from, to);
        }
    }

    /// Links control input `inner` to input `outer` of the graph's
    /// interface.
    pub fn export_control_in(&mut self, inner: Connection, outer: usize)
        requires
            control_in_at(old(self)@, inner),
        ensures
            final(self)@ == old(self)@.insert(
                inner.0.0,
                with_control_in(old(self)@[inner.0.0], inner.1 as int, Link::Export(outer)),
            ),
            wf(old(self)@) ==> wf(final(self)@),
            final(self).class == old(self).class,
            final(self).name == old(self).name,
            final(self).next_key() == old(self).next_key(),
            final(self).keys_dense() == old(self).keys_dense(),
    {
        let ghost m = self@;
        let mut n = self.take_node(inner.0.0);
        push_link(&mut n.controls_in, inner.1, Link::Export(outer));
        assert(n@ =~= with_control_in(m[inner.0.0], inner.1 as int, Link::Export(outer)));
        self.put_node(inner.0.0, n);
        proof {
            let m2 = self@;
            if wf(m) {
                lemma_add_export_grows_control_in(m, inner, outer);
            }
        }
    }

    /// Links control output `inner` to output `outer` of the graph's
    /// interface.
    pub fn export_control_out(&mut self, inner: Connection, outer: usize)
        requires
            control_out_at(old(self)@, inner),
        ensures
            final(self)@ == old(self)@.insert(
                inner.0.0,
                with_control_out(old(self)@[inner.0.0], inner.1 as int, Link::Export(outer)),
            ),
            wf(old(self)@) ==> wf(final(self)@),
            final(self).class == old(self).class,
            final(self).name == old(self).name,
            final(self).next_key() == old(self).next_key(),
            final(self).keys_dense() == old(self).keys_dense(),
    {
        let ghost m = self@;
        let mut n = self.take_node(inner.0.0);
        push_link(&mut n.controls_out, inner.1, Link::Export(outer));
        assert(n@ =~= with_control_out(m[inner.0.0], inner.1 as int, Link::Export(outer)));
        self.put_node(inner.0.0, n);
        proof {
            if wf(m) {
                lemma_add_export_grows_control_out(m, inner, outer);
            }
        }
    }
}

pub(crate) proof fn lemma_add_export_grows_control_in(m: Map<usize, NodeView>, inner: Connection, outer: usize)
    requires
        wf(m),
        control_in_at(m, inner),
    ensures
        wf(m.insert(inner.0.0, with_control_in(m[inner.0.0], inner.1 as int, Link::Export(outer)))),
        grows(m, m.insert(inner.0.0, with_control_in(m[inner.0.0], inner.1 as int, Link::Export(outer)))),
{
    let m2 = m.insert(inner.0.0, with_control_in(m[inner.0.0], inner.1 as int, Link::Export(outer)));
    assert(m2.dom() =~= m.dom());
    assert forall|k: usize| #[trigger] m.dom().contains(k) implies {
        &&& m2[k].kind == m[k].kind
        &&& m2[k].values_in == m[k].values_in
        &&& m2[k].values_out == m[k].values_out
        &&& m2[k].controls_in.len() == m[k].controls_in.len()
        &&& m2[k].controls_out.len() == m[k].controls_out.len()
        &&& forall|i: int|
            0 <= i < m[k].controls_in.len() ==> #[trigger] m2[k].controls_in[i].len()
                >= m[k].controls_in[i].len() && m2[k].controls_in[i].subrange(
                0,
                m[k].controls_in[i].len() as int,
            ) == m[k].controls_in[i]
        &&& forall|j: int|
            0 <= j < m[k].controls_out.len() ==> #[trigger] m2[k].controls_out[j].len()
                >= m[k].controls_out[j].len() && m2[k].controls_out[j].subrange(
                0,
                m[k].controls_out[j].len() as int,
            ) == m[k].controls_out[j]
    } by {
        assert forall|i: int| 0 <= i < m[k].controls_in.len() implies #[trigger] m2[k].controls_in[i].len()
            >= m[k].controls_in[i].len() && m2[k].controls_in[i].subrange(
            0,
            m[k].controls_in[i].len() as int,
        ) == m[k].controls_in[i] by {
            assert(m2[k].controls_in[i].subrange(0, m[k].controls_in[i].len() as int)
                =~= m[k].controls_in[i]);
        }
        assert forall|j: int| 0 <= j < m[k].controls_out.len() implies #[trigger] m2[k].controls_out[j].len()
            >= m[k].controls_out[j].len() && m2[k].controls_out[j].subrange(
            0,
            m[k].controls_out[j].len() as int,
        ) == m[k].controls_out[j] by {
            assert(m2[k].controls_out[j].subrange(0, m[k].controls_out[j].len() as int)
                =~= m[k].controls_out[j]);
        }
    }
    lemma_grows_wf_except_new(m, m2);
    lemma_grows_controls_ok(m, m2);
}

pub(crate) proof fn lemma_add_export_grows_control_out(m: Map<usize, NodeView>, inner: Connection, outer: usize)
    requires
        wf(m),
        control_out_at(m, inner),
    ensures
        wf(m.insert(inner.0.0, with_control_out(m[inner.0.0], inner.1 as int, Link::Export(outer)))),
        grows(m, m.insert(inner.0.0, with_control_out(m[inner.0.0], inner.1 as int, Link::Export(outer)))),
{
    let m2 = m.insert(inner.0.0, with_control_out(m[inner.0.0], inner.1 as int, Link::Export(outer)));
    assert(m2.dom() =~= m.dom());
    assert forall|k: usize| #[trigger] m.dom().contains(k) implies {
        &&& m2[k].kind == m[k].kind
        &&& m2[k].values_in == m[k].values_in
        &&& m2[k].values_out == m[k].values_out
        &&& m2[k].controls_in.len() == m[k].controls_in.len()
        &&& m2[k].controls_out.len() == m[k].controls_out.len()
        &&& forall|i: int|
            0 <= i < m[k].controls_in.len() ==> #[trigger] m2[k].controls_in[i].len()
                >= m[k].controls_in[i].len() && m2[k].controls_in[i].subrange(
                0,
                m[k].controls_in[i].len() as int,
            ) == m[k].controls_in[i]
        &&& forall|j: int|
            0 <= j < m[k].controls_out.len() ==> #[trigger] m2[k].controls_out[j].len()
                >= m[k].controls_out[j].len() && m2[k].controls_out[j].subrange(
                0,
                m[k].controls_out[j].len() as int,
            ) == m[k].controls_out[j]
    } by {
        assert forall|i: int| 0 <= i < m[k].controls_in.len() implies #[trigger] m2[k].controls_in[i].len()
            >= m[k].controls_in[i].len() && m2[k].controls_in[i].subrange(
            0,
            m[k].controls_in[i].len() as int,
        ) == m[k].controls_in[i] by {
            assert(m2[k].controls_in[i].subrange(0, m[k].controls_in[i].len() as int)
                =~= m[k].controls_in[i]);
        }
        assert forall|j: int| 0 <= j < m[k].controls_out.len() implies #[trigger] m2[k].controls_out[j].len()
            >= m[k].controls_out[j].len() && m2[k].controls_out[j].subrange(
            0,
            m[k].controls_out[j].len() as int,
        ) == m[k].controls_out[j] by {
            assert(m2[k].controls_out[j].subrange(0, m[k].controls_out[j].len() as int)
                =~= m[k].controls_out[j]);
        }
    }
    lemma_grows_wf_except_new(m, m2);
    lemma_grows_controls_ok(m, m2);
}

/// When only links to the graph's interface are added, control links stay
/// kept on both ends.
proof fn lemma_grows_controls_ok(m: Map<usize, NodeView>, m2: Map<usize, NodeView>)
    requires
        wf(m),
        grows(m, m2),
        forall|k: usize, j: int, x: int|
            m2.dom().contains(k) && 0 <= j < m2[k].controls_out.len() && m[k].controls_out[j].len()
                <= x < m2[k].controls_out[j].len() ==> #[trigger] m2[k].controls_out[j][x] is Export,
        forall|k: usize, i: int, x: int|
            m2.dom().contains(k) && 0 <= i < m2[k].controls_in.len() && m[k].controls_in[i].len()
                <= x < m2[k].controls_in[i].len() ==> #[trigger] m2[k].controls_in[i][x] is Export,
    ensures
        forall|k: usize, j: int, t: int|
            m2.dom().contains(k) && 0 <= j < m2[k].controls_out.len() && 0 <= t
                < m2[k].controls_out[j].len() ==> #[trigger] control_out_ok(m2, k, j, t),
        forall|k: usize, i: int, t: int|
            m2.dom().contains(k) && 0 <= i < m2[k].controls_in.len() && 0 <= t
                < m2[k].controls_in[i].len() ==> #[trigger] control_in_ok(m2, k, i, t),
{
    assert forall|k: usize, j: int, x: int|
        m2.dom().contains(k) && 0 <= j < m2[k].controls_out.len() && 0 <= x
            < m2[k].controls_out[j].len() implies #[trigger] control_out_ok(m2, k, j, x) by {
        if x < m[k].controls_out[j].len() {
            assert(m2[k].controls_out[j][x] == m2[k].controls_out[j].subrange(
                0,
                m[k].controls_out[j].len() as int,
            )[x]);
            assert(control_out_ok(m, k, j, x));
            if let Link::Connection(c) = m[k].controls_out[j][x] {
                assert(m.dom().contains(c.0.0));
                assert(m2[c.0.0].controls_in[c.1 as int].len() >= m[c.0.0].controls_in[c.1 as int].len());
                lemma_prefix_contains(
                    m[c.0.0].controls_in[c.1 as int],
                    m2[c.0.0].controls_in[c.1 as int],
                    conn(k, j as usize),
                );
            }
        }
    }
    assert forall|k: usize, i: int, x: int|
        m2.dom().contains(k) && 0 <= i < m2[k].controls_in.len() && 0 <= x
            < m2[k].controls_in[i].len() implies #[trigger] control_in_ok(m2, k, i, x) by {
        if x < m[k].controls_in[i].len() {
            assert(m2[k].controls_in[i][x] == m2[k].controls_in[i].subrange(
                0,
                m[k].controls_in[i].len() as int,
            )[x]);
            assert(control_in_ok(m, k, i, x));
            if let Link::Connection(c) = m[k].controls_in[i][x] {
                assert(m.dom().contains(c.0.0));
                assert(m2[c.0.0].controls_out[c.1 as int].len() >= m[c.0.0].controls_out[c.1 as int].len());
                lemma_prefix_contains(
                    m[c.0.0].controls_out[c.1 as int],
                    m2[c.0.0].controls_out[c.1 as int],
                    conn(k, i as usize),
                );
            }
        }
    }
}

} // verus!

verus! {

// ---------------------------------------------------------------------------
// Value links.
// ---------------------------------------------------------------------------

proof fn lemma_filter_push(s: Seq<Link>, x: Link, p: spec_fn(Link) -> bool)
    ensures
        s.push(x).filter(p) == (if p(x) {
            s.filter(p).push(x)
        } else {
            s.filter(p)
        }),
{
    reveal_with_fuel(Seq::<_>::filter, 1);
    assert(s.push(x).drop_last() =~= s);
}

/// What a filtered list holds: the members of the list that pass.
proof fn lemma_filter_member(s: Seq<Link>, p: spec_fn(Link) -> bool, x: Link)
    ensures
        s.filter(p).contains(x) <==> s.contains(x) && p(x),
{
    broadcast use vstd::seq_lib::group_filter_ensures;

    if s.filter(p).contains(x) {
        s.lemma_filter_contains_rev(p, x);
        let i = choose|i: int| 0 <= i < s.filter(p).len() && s.filter(p)[i] == x;
        s.lemma_filter_pred(p, i);
    }
    if s.contains(x) && p(x) {
        let i = choose|i: int| 0 <= i < s.len() && s[i] == x;
        s.lemma_filter_contains(p, i);
    }
}

/// `list` without the links equal to `l`.
fn drop_link(list: &Vec<Link>, l: Link) -> (r: Vec<Link>)
    ensures
        r@ == list@.filter(other_than(l)),
{
    let mut r: Vec<Link> = Vec::new();
    let mut i: usize = 0;
    while i < list.len()
        invariant
            i <= list@.len(),
            r@ == list@.subrange(0, i as int).filter(other_than(l)),
        decreases list@.len() - i,
    {
        let x = list[i];
        proof {
            lemma_filter_push(list@.subrange(0, i as int), x, other_than(l));
            assert(list@.subrange(0, i + 1) =~= list@.subrange(0, i as int).push(x));
        }
        if x != l {
            r.push(x);
        }
        i = i + 1;
    }
    assert(list@.subrange(0, list@.len() as int) =~= list@);
    r
}

/// `list` without the links to pins of node `key`.
fn drop_links_to(list: &Vec<Link>, key: usize) -> (r: Vec<Link>)
    ensures
        r@ == list@.filter(away_from(key)),
{
    let mut r: Vec<Link> = Vec::new();
    let mut i: usize = 0;
    while i < list.len()
        invariant
            i <= list@.len(),
            r@ == list@.subrange(0, i as int).filter(away_from(key)),
        decreases list@.len() - i,
    {
        let x = list[i];
        proof {
            lemma_filter_push(list@.subrange(0, i as int), x, away_from(key));
            assert(list@.subrange(0, i + 1) =~= list@.subrange(0, i as int).push(x));
        }
        let keep = match x {
            Link::Connection(c) => c.0.0 != key,
            Link::Export(_) => true,
        };
        if keep {
            r.push(x);
        }
        i = i + 1;
    }
    assert(list@.subrange(0, list@.len() as int) =~= list@);
    r
}

/// Replaces list `i` by `list`.
fn set_list(lists: &mut Vec<Vec<Link>>, i: usize, list: Vec<Link>)
    requires
        i < old(lists)@.len(),
    ensures
        lists_view(final(lists)@) == lists_view(old(lists)@).update(i as int, list@),
{
    let ghost l = list@;
    lists.set(i, list);
    assert(lists_view(lists@) =~= lists_view(old(lists)@).update(i as int, l));
}

/// A member of a value output of a well-formed graph is a link whose
/// target input links back.
proof fn lemma_value_out_member(m: Map<usize, NodeView>, k: usize, j: int, x: Link)
    requires
        wf(m),
        m.dom().contains(k),
        0 <= j < m[k].values_out.len(),
        m[k].values_out[j].contains(x),
    ensures
        x matches Link::Connection(c) ==> {
            &&& m.dom().contains(c.0.0)
            &&& c.1 < m[c.0.0].values_in.len()
            &&& m[c.0.0].values_in[c.1 as int].link == Some(conn(k, j as usize))
        },
{
    let t = choose|t: int| 0 <= t < m[k].values_out[j].len() && m[k].values_out[j][t] == x;
    assert(value_out_ok(m, k, j, t));
}

/// Linking output `from` to input `to` keeps a graph well formed.
proof fn lemma_connect_value_wf(m: Map<usize, NodeView>, from: Connection, to: Connection)
    requires
        wf(m),
        value_out_at(m, from),
        value_in_at(m, to),
        from.0.0 != to.0.0,
    ensures
        wf(connect_value_spec(m, from, to)),
        connect_value_spec(m, from, to).dom() == m.dom(),
{
    broadcast use vstd::seq_lib::group_filter_ensures;

    let m1 = unlink_value_in_spec(m, to);
    let m2 = m1.insert(from.0.0, with_value_out(m1[from.0.0], from.1 as int, Link::Connection(to)));
    let m3 = m2.insert(to.0.0, with_value_link(m2[to.0.0], to.1 as int, Some(Link::Connection(from))));
    assert(m3 == connect_value_spec(m, from, to));
    let old_link = m[to.0.0].values_in[to.1 as int].link;
    assert(value_in_ok(m, to.0.0, to.1 as int));
    assert(m1.dom() =~= m.dom());
    assert(m3.dom() =~= m.dom());
    // What each value output of the new graph lists.
    assert forall|k: usize, j: int, x: Link|
        m.dom().contains(k) && 0 <= j < m[k].values_out.len() implies (#[trigger] m3[k].values_out[j].contains(x)
        <==> (if k == from.0.0 && j == from.1 {
            m1[k].values_out[j].contains(x) || x == Link::Connection(to)
        } else {
            m1[k].values_out[j].contains(x)
        })) && m3[k].values_out.len() == m[k].values_out.len() by {
        if k == from.0.0 && j == from.1 {
            if x == Link::Connection(to) {
                assert(m3[k].values_out[j].last() == x);
            }
            if m3[k].values_out[j].contains(x) && x != Link::Connection(to) {
                let t = choose|t: int| 0 <= t < m3[k].values_out[j].len() && m3[k].values_out[j][t] == x;
                assert(m1[k].values_out[j][t] == x);
            }
            if m1[k].values_out[j].contains(x) {
                let t = choose|t: int| 0 <= t < m1[k].values_out[j].len() && m1[k].values_out[j][t] == x;
                assert(m3[k].values_out[j][t] == x);
            }
        }
    }
    assert forall|k: usize, j: int, x: Link|
        m.dom().contains(k) && 0 <= j < m[k].values_out.len() implies (#[trigger] m1[k].values_out[j].contains(x)
        <==> (if old_link matches Some(Link::Connection(c)) && c.0.0 == k && c.1 as int == j {
            m[k].values_out[j].contains(x) && x != Link::Connection(to)
        } else {
            m[k].values_out[j].contains(x)
        })) && m1[k].values_out.len() == m[k].values_out.len() by {
        if old_link matches Some(Link::Connection(c)) && c.0.0 == k && c.1 as int == j {
            lemma_filter_member(m[k].values_out[j], other_than(Link::Connection(to)), x);
        } else if let Some(Link::Connection(c)) = old_link {
            if c.0.0 == k {
                assert(m1[k].values_out[j] == m[k].values_out[j]);
            }
        }
    }
    // Shapes are unchanged.
    assert forall|k: usize| #[trigger] m3.dom().contains(k) implies shape_ok(m3[k]) by {
        assert(shape_ok(m[k]));
    }
    // Inputs: only `to` changed, and it now points at `from`.
    assert forall|k: usize, i: int|
        m3.dom().contains(k) && 0 <= i < m3[k].values_in.len() implies #[trigger] value_in_ok(
        m3,
        k,
        i,
    ) by {
        if k == to.0.0 && i == to.1 {
            assert(m3[from.0.0].values_out[from.1 as int].contains(Link::Connection(to)));
        } else {
            assert(m3[k].values_in[i] == m[k].values_in[i]);
            assert(value_in_ok(m, k, i));
            if let Some(Link::Connection(c)) = m[k].values_in[i].link {
                let me = conn(k, i as usize);
                assert(me != Link::Connection(to));
                assert(m[c.0.0].values_out[c.1 as int].contains(me));
                assert(m1[c.0.0].values_out[c.1 as int].contains(me));
                assert(m3[c.0.0].values_out[c.1 as int].contains(me));
            }
        }
    }
    // Outputs: every listed link is the link of its target.
    assert forall|k: usize, j: int, t: int|
        m3.dom().contains(k) && 0 <= j < m3[k].values_out.len() && 0 <= t
            < m3[k].values_out[j].len() implies #[trigger] value_out_ok(m3, k, j, t) by {
        let x = m3[k].values_out[j][t];
        assert(m3[k].values_out[j].contains(x));
        if let Link::Connection(c) = x {
            if x == Link::Connection(to) {
                assert(k == from.0.0 && j == from.1) by {
                    if !(k == from.0.0 && j == from.1) {
                        assert(m1[k].values_out[j].contains(x));
                        assert(m[k].values_out[j].contains(x));
                        lemma_value_out_member(m, k, j, x);
                    }
                }
            } else {
                assert(m1[k].values_out[j].contains(x));
                assert(m[k].values_out[j].contains(x));
                lemma_value_out_member(m, k, j, x);
                assert(m3[c.0.0].values_in[c.1 as int] == m[c.0.0].values_in[c.1 as int]);
            }
        }
    }
    // Controls are unchanged.
    assert forall|k: usize, j: int, t: int|
        m3.dom().contains(k) && 0 <= j < m3[k].controls_out.len() && 0 <= t
            < m3[k].controls_out[j].len() implies #[trigger] control_out_ok(m3, k, j, t) by {
        assert(control_out_ok(m, k, j, t));
    }
    assert forall|k: usize, i: int, t: int|
        m3.dom().contains(k) && 0 <= i < m3[k].controls_in.len() && 0 <= t
            < m3[k].controls_in[i].len() implies #[trigger] control_in_ok(m3, k, i, t) by {
        assert(control_in_ok(m, k, i, t));
    }
}

} // verus!

verus! {

/// Sets the link of input `i`, keeping its value.
fn set_input_link(inputs: &mut Vec<ValueIn>, i: usize, l: Option<Link>)
    requires
        i < old(inputs)@.len(),
    ensures
        final(inputs)@ == old(inputs)@.update(
            i as int,
            ValueIn { default: old(inputs)@[i as int].default, link: l },
        ),
{
    inputs[i].link = l;
    assert(inputs@ =~= old(inputs)@.update(
        i as int,
        ValueIn { default: old(inputs)@[i as int].default, link: l },
    ));
}

/// Sets the value of input `i`, keeping its link.
fn set_input_default(inputs: &mut Vec<ValueIn>, i: usize, v: AnyValue)
    requires
        i < old(inputs)@.len(),
    ensures
        final(inputs)@ == old(inputs)@.update(
            i as int,
            ValueIn { default: Some(v), link: old(inputs)@[i as int].link },
        ),
{
    let ghost gv = v;
    inputs[i].default = Some(v);
    assert(inputs@ =~= old(inputs)@.update(
        i as int,
        ValueIn { default: Some(gv), link: old(inputs)@[i as int].link },
    ));
}

/// The type that output `from` gives suits input `to`: one of the two
/// types accepts the other, or the input has no type.
pub open spec fn types_meet(m: Map<usize, NodeView>, from: Connection, to: Connection) -> bool {
    match m[to.0.0].kind.values_in_types@[to.1 as int] {
        Some(kind) => {
            let out = m[from.0.0].kind.values_out_types@[from.1 as int];
            instance_of(kind, out) || instance_of(out, kind)
        },
        None => true,
    }
}

/// Input `place` accepts `v`.
pub open spec fn accepts(m: Map<usize, NodeView>, place: Connection, v: AnyValue) -> bool {
    match m[place.0.0].kind.values_in_types@[place.1 as int] {
        Some(kind) => instance_of(kind, v),
        None => true,
    }
}

/// The graph after input `place` is given the value `v`.
pub open spec fn set_default_spec(m: Map<usize, NodeView>, place: Connection, v: AnyValue) -> Map<
    usize,
    NodeView,
> {
    m.insert(place.0.0, with_value_default(m[place.0.0], place.1 as int, v))
}

/// The graph after input `place` is set as `value` says: its value if it
/// has one, then its link if it has one.
pub open spec fn set_value_in_spec(m: Map<usize, NodeView>, place: Connection, value: ValueIn) -> Map<
    usize,
    NodeView,
> {
    let m1 = match value.default {
        Some(v) => set_default_spec(m, place, v),
        None => m,
    };
    match value.link {
        Some(Link::Connection(c)) => connect_value_spec(m1, c, place),
        Some(Link::Export(e)) => export_value_in_spec(m1, place, e),
        None => m1,
    }
}

/// Graphs with the same nodes and the same links.
pub open spec fn same_links(m: Map<usize, NodeView>, m2: Map<usize, NodeView>) -> bool {
    &&& m2.dom() == m.dom()
    &&& forall|k: usize|
        #[trigger] m.dom().contains(k) ==> {
            &&& m2[k].kind == m[k].kind
            &&& m2[k].controls_in == m[k].controls_in
            &&& m2[k].controls_out == m[k].controls_out
            &&& m2[k].values_out == m[k].values_out
            &&& m2[k].values_in.len() == m[k].values_in.len()
            &&& forall|i: int|
                0 <= i < m[k].values_in.len() ==> (#[trigger] m2[k].values_in[i]).link
                    == m[k].values_in[i].link
        }
}

/// Values do not matter to well-formedness.
proof fn lemma_same_links_wf(m: Map<usize, NodeView>, m2: Map<usize, NodeView>)
    requires
        wf(m),
        same_links(m, m2),
    ensures
        wf(m2),
{
    assert forall|k: usize| #[trigger] m2.dom().contains(k) implies shape_ok(m2[k]) by {
        assert(shape_ok(m[k]));
    }
    assert forall|k: usize, i: int|
        m2.dom().contains(k) && 0 <= i < m2[k].values_in.len() implies #[trigger] value_in_ok(
        m2,
        k,
        i,
    ) by {
        assert(value_in_ok(m, k, i));
        assert(m2[k].values_in[i].link == m[k].values_in[i].link);
    }
    assert forall|k: usize, j: int, t: int|
        m2.dom().contains(k) && 0 <= j < m2[k].values_out.len() && 0 <= t
            < m2[k].values_out[j].len() implies #[trigger] value_out_ok(m2, k, j, t) by {
        assert(value_out_ok(m, k, j, t));
        if let Link::Connection(c) = m[k].values_out[j][t] {
            assert(m2[c.0.0].values_in[c.1 as int].link == m[c.0.0].values_in[c.1 as int].link);
        }
    }
    assert forall|k: usize, j: int, t: int|
        m2.dom().contains(k) && 0 <= j < m2[k].controls_out.len() && 0 <= t
            < m2[k].controls_out[j].len() implies #[trigger] control_out_ok(m2, k, j, t) by {
        assert(control_out_ok(m, k, j, t));
    }
    assert forall|k: usize, i: int, t: int|
        m2.dom().contains(k) && 0 <= i < m2[k].controls_in.len() && 0 <= t
            < m2[k].controls_in[i].len() implies #[trigger] control_in_ok(m2, k, i, t) by {
        assert(control_in_ok(m, k, i, t));
    }
}

/// Linking input `inner` to the graph's interface keeps a graph well
/// formed.
proof fn lemma_export_value_in_wf(m: Map<usize, NodeView>, inner: Connection, outer: usize)
    requires
        wf(m),
        value_in_at(m, inner),
    ensures
        wf(export_value_in_spec(m, inner, outer)),
        export_value_in_spec(m, inner, outer).dom() == m.dom(),
{
    let m1 = unlink_value_in_spec(m, inner);
    let m3 = export_value_in_spec(m, inner, outer);
    let old_link = m[inner.0.0].values_in[inner.1 as int].link;
    assert(value_in_ok(m, inner.0.0, inner.1 as int));
    assert(m1.dom() =~= m.dom());
    assert(m3.dom() =~= m.dom());
    assert forall|k: usize, j: int, x: Link|
        m.dom().contains(k) && 0 <= j < m[k].values_out.len() implies (#[trigger] m3[k].values_out[j].contains(x)
        <==> (if old_link matches Some(Link::Connection(c)) && c.0.0 == k && c.1 as int == j {
            m[k].values_out[j].contains(x) && x != Link::Connection(inner)
        } else {
            m[k].values_out[j].contains(x)
        })) && m3[k].values_out.len() == m[k].values_out.len() by {
        if old_link matches Some(Link::Connection(c)) && c.0.0 == k && c.1 as int == j {
            lemma_filter_member(m[k].values_out[j], other_than(Link::Connection(inner)), x);
        } else if let Some(Link::Connection(c)) = old_link {
            if c.0.0 == k {
                assert(m1[k].values_out[j] == m[k].values_out[j]);
            }
        }
    }
    assert forall|k: usize| #[trigger] m3.dom().contains(k) implies shape_ok(m3[k]) by {
        assert(shape_ok(m[k]));
    }
    assert forall|k: usize, i: int|
        m3.dom().contains(k) && 0 <= i < m3[k].values_in.len() implies #[trigger] value_in_ok(
        m3,
        k,
        i,
    ) by {
        if !(k == inner.0.0 && i == inner.1) {
            assert(m3[k].values_in[i] == m[k].values_in[i]);
            assert(value_in_ok(m, k, i));
            if let Some(Link::Connection(c)) = m[k].values_in[i].link {
                let me = conn(k, i as usize);
                assert(me != Link::Connection(inner));
                assert(m[c.0.0].values_out[c.1 as int].contains(me));
                assert(m3[c.0.0].values_out[c.1 as int].contains(me));
            }
        }
    }
    assert forall|k: usize, j: int, t: int|
        m3.dom().contains(k) && 0 <= j < m3[k].values_out.len() && 0 <= t
            < m3[k].values_out[j].len() implies #[trigger] value_out_ok(m3, k, j, t) by {
        let x = m3[k].values_out[j][t];
        assert(m3[k].values_out[j].contains(x));
        if let Link::Connection(c) = x {
            assert(m[k].values_out[j].contains(x));
            lemma_value_out_member(m, k, j, x);
            if x == Link::Connection(inner) {
                assert(false);
            }
            assert(m3[c.0.0].values_in[c.1 as int] == m[c.0.0].values_in[c.1 as int]);
        }
    }
    assert forall|k: usize, j: int, t: int|
        m3.dom().contains(k) && 0 <= j < m3[k].controls_out.len() && 0 <= t
            < m3[k].controls_out[j].len() implies #[trigger] control_out_ok(m3, k, j, t) by {
        assert(control_out_ok(m, k, j, t));
    }
    assert forall|k: usize, i: int, t: int|
        m3.dom().contains(k) && 0 <= i < m3[k].controls_in.len() && 0 <= t
            < m3[k].controls_in[i].len() implies #[trigger] control_in_ok(m3, k, i, t) by {
        assert(control_in_ok(m, k, i, t));
    }
}

impl NodeGraph {
    /// Drops the link of input `to` from the list of its source.
    fn unlink_value_in(&mut self, to: Connection)
        requires
            wf(old(self)@),
            value_in_at(old(self)@, to),
        ensures
            final(self)@ == unlink_value_in_spec(old(self)@, to),
            final(self)@.dom() == old(self)@.dom(),
            forall|k: usize|
                #[trigger] old(self)@.dom().contains(k) ==> final(self)@[k].values_out.len()
                    == old(self)@[k].values_out.len() && final(self)@[k].values_in
                    == old(self)@[k].values_in && final(self)@[k].kind == old(self)@[k].kind,
            final(self).class == old(self).class,
            final(self).name == old(self).name,
            final(self).next_key() == old(self).next_key(),
            final(self).keys_dense() == old(self).keys_dense(),
    {
        let ghost m = self@;
        let old_link = self.get_node(to.0).values_in[to.1].link;
        proof {
            assert(value_in_ok(m, to.0.0, to.1 as int));
        }
        if let Some(Link::Connection(Connection(f, i))) = old_link {
            let mut n = self.take_node(f.0);
            let filtered = drop_link(&n.values_out[i], Link::Connection(to));
            set_list(&mut n.values_out, i, filtered);
            assert(n@ =~= without_value_out(m[f.0], i as int, Link::Connection(to)));
            self.put_node(f.0, n);
        }
        assert(self@.dom() =~= m.dom());
    }

    /// Gives input `place` the value `value`, keeping its link.
    pub fn set_default(&mut self, place: Connection, value: AnyValue)
        requires
            value_in_at(old(self)@, place),
            shape_ok(old(self)@[place.0.0]),
            accepts(old(self)@, place, value),
        ensures
            final(self)@ == set_default_spec(old(self)@, place, value),
            wf(old(self)@) ==> wf(final(self)@),
            final(self).class == old(self).class,
            final(self).name == old(self).name,
            final(self).next_key() == old(self).next_key(),
            final(self).keys_dense() == old(self).keys_dense(),
    {
        let ghost m = self@;
        let ghost v = value;
        let mut n = self.take_node(place.0.0);
        set_input_default(&mut n.values_in, place.1, value);
        assert(n@ =~= with_value_default(m[place.0.0], place.1 as int, v));
        self.put_node(place.0.0, n);
        proof {
            if wf(m) {
                let m2 = self@;
                assert(m2.dom() =~= m.dom());
                assert forall|k: usize| #[trigger] m.dom().contains(k) implies {
                    &&& m2[k].kind == m[k].kind
                    &&& m2[k].controls_in == m[k].controls_in
                    &&& m2[k].controls_out == m[k].controls_out
                    &&& m2[k].values_out == m[k].values_out
                    &&& m2[k].values_in.len() == m[k].values_in.len()
                    &&& forall|i: int|
                        0 <= i < m[k].values_in.len() ==> (#[trigger] m2[k].values_in[i]).link
                            == m[k].values_in[i].link
                } by {}
                lemma_same_links_wf(m, m2);
            }
        }
    }

    /// Links output `from` to input `to`, on both ends; the former link of
    /// `to` is dropped from the list of its source.
    pub fn connect_value(&mut self, from: Connection, to: Connection)
        requires
            wf(old(self)@),
            value_out_at(old(self)@, from),
            value_in_at(old(self)@, to),
            from.0.0 != to.0.0,
            types_meet(old(self)@, from, to),
        ensures
            final(self)@ == connect_value_spec(old(self)@, from, to),
            wf(final(self)@),
            final(self).class == old(self).class,
            final(self).name == old(self).name,
            final(self).next_key() == old(self).next_key(),
            final(self).keys_dense() == old(self).keys_dense(),
    {
        let ghost m = self@;
        self.unlink_value_in(to);
        let ghost m1 = self@;
        let mut a = self.take_node(from.0.0);
        push_link(&mut a.values_out, from.1, Link::Connection(to));
        assert(a@ =~= with_value_out(m1[from.0.0], from.1 as int, Link::Connection(to)));
        self.put_node(from.0.0, a);
        let ghost m2 = self@;
        let mut b = self.take_node(to.0.0);
        set_input_link(&mut b.values_in, to.1, Some(Link::Connection(from)));
        assert(b@ =~= with_value_link(m2[to.0.0], to.1 as int, Some(Link::Connection(from))));
        self.put_node(to.0.0, b);
        proof {
            lemma_connect_value_wf(m, from, to);
        }
    }

    /// Links input `inner` to input `outer` of the graph's interface; its
    /// former link is dropped from the list of its source.
    pub fn export_value_in(&mut self, inner: Connection, outer: usize)
        requires
            wf(old(self)@),
            value_in_at(old(self)@, inner),
        ensures
            final(self)@ == export_value_in_spec(old(self)@, inner, outer),
            wf(final(self)@),
            final(self).class == old(self).class,
            final(self).name == old(self).name,
            final(self).next_key() == old(self).next_key(),
            final(self).keys_dense() == old(self).keys_dense(),
    {
        let ghost m = self@;
        self.unlink_value_in(inner);
        let ghost m1 = self@;
        let mut b = self.take_node(inner.0.0);
        set_input_link(&mut b.values_in, inner.1, Some(Link::Export(outer)));
        assert(b@ =~= with_value_link(m1[inner.0.0], inner.1 as int, Some(Link::Export(outer))));
        self.put_node(inner.0.0, b);
        proof {
            lemma_export_value_in_wf(m, inner, outer);
        }
    }

    /// Sets input `place` as `value` says: its value if it has one, then
    /// its link if it has one.
    pub fn set_value_in(&mut self, place: Connection, value: ValueIn)
        requires
            wf(old(self)@),
            value_in_at(old(self)@, place),
            value.default matches Some(v) ==> accepts(old(self)@, place, v),
            value.link matches Some(Link::Connection(c)) ==> {
                &&& value_out_at(old(self)@, c)
                &&& c.0.0 != place.0.0
                &&& types_meet(old(self)@, c, place)
            },
        ensures
            final(self)@ == set_value_in_spec(old(self)@, place, value),
            wf(final(self)@),
            final(self).class == old(self).class,
            final(self).name == old(self).name,
            final(self).next_key() == old(self).next_key(),
            final(self).keys_dense() == old(self).keys_dense(),
    {
        let ghost m = self@;
        proof {
            assert(shape_ok(m[place.0.0]));
        }
        if let Some(default) = value.default {
            self.set_default(place, default);
        }
        if let Some(link) = value.link {
            match link {
                Link::Connection(con) => self.connect_value(con, place),
                Link::Export(exp) => self.export_value_in(place, exp),
            }
        }
    }
}

} // verus!

verus! {

// ---------------------------------------------------------------------------
// Links to the graph's interface.
// ---------------------------------------------------------------------------

/// The node without links to output `outer` of the graph's interface.
pub open spec fn without_export_out(n: NodeView, outer: usize) -> NodeView {
    NodeView {
        values_out: n.values_out.map_values(
            |l: Seq<Link>| l.filter(other_than(Link::Export(outer))),
        ),
        ..n
    }
}

/// The graph after output `inner` becomes the one node output linked to
/// output `outer` of the graph's interface.
pub open spec fn export_value_out_spec(m: Map<usize, NodeView>, inner: Connection, outer: usize) -> Map<
    usize,
    NodeView,
> {
    let m1 = m.map_values(|n: NodeView| without_export_out(n, outer));
    m1.insert(inner.0.0, with_value_out(m1[inner.0.0], inner.1 as int, Link::Export(outer)))
}

/// Graphs with the same nodes, inputs and control links, whose value
/// outputs list the same links between nodes.
pub open spec fn same_connections(m: Map<usize, NodeView>, m2: Map<usize, NodeView>) -> bool {
    &&& m2.dom() == m.dom()
    &&& forall|k: usize|
        #[trigger] m.dom().contains(k) ==> {
            &&& m2[k].kind == m[k].kind
            &&& m2[k].controls_in == m[k].controls_in
            &&& m2[k].controls_out == m[k].controls_out
            &&& m2[k].values_in == m[k].values_in
            &&& m2[k].values_out.len() == m[k].values_out.len()
        }
    &&& forall|k: usize, j: int, x: Link|
        m.dom().contains(k) && 0 <= j < m[k].values_out.len() && x is Connection ==> (
        #[trigger] m2[k].values_out[j].contains(x) <==> m[k].values_out[j].contains(x))
}

/// Links to the graph's interface do not matter to well-formedness.
proof fn lemma_same_connections_wf(m: Map<usize, NodeView>, m2: Map<usize, NodeView>)
    requires
        wf(m),
        same_connections(m, m2),
    ensures
        wf(m2),
{
    assert forall|k: usize| #[trigger] m2.dom().contains(k) implies shape_ok(m2[k]) by {
        assert(shape_ok(m[k]));
    }
    assert forall|k: usize, i: int|
        m2.dom().contains(k) && 0 <= i < m2[k].values_in.len() implies #[trigger] value_in_ok(
        m2,
        k,
        i,
    ) by {
        assert(value_in_ok(m, k, i));
        if let Some(Link::Connection(c)) = m[k].values_in[i].link {
            assert(m2[c.0.0].values_out[c.1 as int].contains(conn(k, i as usize)));
        }
    }
    assert forall|k: usize, j: int, t: int|
        m2.dom().contains(k) && 0 <= j < m2[k].values_out.len() && 0 <= t
            < m2[k].values_out[j].len() implies #[trigger] value_out_ok(m2, k, j, t) by {
        let x = m2[k].values_out[j][t];
        assert(m2[k].values_out[j].contains(x));
        if let Link::Connection(c) = x {
            assert(m[k].values_out[j].contains(x));
            lemma_value_out_member(m, k, j, x);
        }
    }
    assert forall|k: usize, j: int, t: int|
        m2.dom().contains(k) && 0 <= j < m2[k].controls_out.len() && 0 <= t
            < m2[k].controls_out[j].len() implies #[trigger] control_out_ok(m2, k, j, t) by {
        assert(control_out_ok(m, k, j, t));
    }
    assert forall|k: usize, i: int, t: int|
        m2.dom().contains(k) && 0 <= i < m2[k].controls_in.len() && 0 <= t
            < m2[k].controls_in[i].len() implies #[trigger] control_in_ok(m2, k, i, t) by {
        assert(control_in_ok(m, k, i, t));
    }
}

proof fn lemma_unexport_value_out_wf(m: Map<usize, NodeView>, outer: usize)
    requires
        wf(m),
    ensures
        wf(m.map_values(|n: NodeView| without_export_out(n, outer))),
{
    let m1 = m.map_values(|n: NodeView| without_export_out(n, outer));
    assert(m1.dom() =~= m.dom());
    assert forall|k: usize, j: int, x: Link|
        m.dom().contains(k) && 0 <= j < m[k].values_out.len() && x is Connection implies (
        #[trigger] m1[k].values_out[j].contains(x) <==> m[k].values_out[j].contains(x)) by {
        lemma_filter_member(m[k].values_out[j], other_than(Link::Export(outer)), x);
    }
    lemma_same_connections_wf(m, m1);
}

proof fn lemma_export_value_out_wf(m: Map<usize, NodeView>, inner: Connection, outer: usize)
    requires
        wf(m),
        value_out_at(m, inner),
    ensures
        wf(export_value_out_spec(m, inner, outer)),
{
    let m1 = m.map_values(|n: NodeView| without_export_out(n, outer));
    let m2 = export_value_out_spec(m, inner, outer);
    assert(m2.dom() =~= m.dom());
    assert forall|k: usize, j: int, x: Link|
        m.dom().contains(k) && 0 <= j < m[k].values_out.len() && x is Connection implies (
        #[trigger] m2[k].values_out[j].contains(x) <==> m[k].values_out[j].contains(x)) by {
        lemma_filter_member(m[k].values_out[j], other_than(Link::Export(outer)), x);
        if k == inner.0.0 && j == inner.1 {
            let s = m1[k].values_out[j];
            if s.push(Link::Export(outer)).contains(x) {
                let t = choose|t: int| 0 <= t < s.len() + 1 && s.push(Link::Export(outer))[t] == x;
                assert(s[t] == x);
            }
            if s.contains(x) {
                let t = choose|t: int| 0 <= t < s.len() && s[t] == x;
                assert(s.push(Link::Export(outer))[t] == x);
            }
        }
    }
    lemma_same_connections_wf(m, m2);
}

impl NodeGraph {
    /// Unlinks output `outer` of the graph's interface from every node
    /// output.
    pub fn unexport_value_out(&mut self, outer: usize)
        ensures
            final(self)@ == old(self)@.map_values(|n: NodeView| without_export_out(n, outer)),
            wf(old(self)@) ==> wf(final(self)@),
            final(self).class == old(self).class,
            final(self).name == old(self).name,
            final(self).next_key() == old(self).next_key(),
            final(self).keys_dense() == old(self).keys_dense(),
    {
        let ghost m = self@;
        let ghost m1 = m.map_values(|n: NodeView| without_export_out(n, outer));
        let keys = slab_keys(&self.nodes);
        let mut idx: usize = 0;
        while idx < keys.len()
            invariant
                idx <= keys@.len(),
                m1 == m.map_values(|n: NodeView| without_export_out(n, outer)),
                forall|a: int, b: int| 0 <= a < b < keys@.len() ==> keys@[a] < keys@[b],
                forall|k: usize| m.dom().contains(k) <==> keys@.contains(k),
                self@.dom() == m.dom(),
                forall|k: usize|
                    #[trigger] m.dom().contains(k) ==> self@[k] == (if keys@.subrange(
                        0,
                        idx as int,
                    ).contains(k) {
                        m1[k]
                    } else {
                        m[k]
                    }),
                self.class == old(self).class,
                self.name == old(self).name,
                self.next_key() == old(self).next_key(),
                self.keys_dense() == old(self).keys_dense(),
            decreases keys@.len() - idx,
        {
            let k = keys[idx];
            assert(keys@.contains(k));
            let ghost before = self@;
            let mut n = self.take_node(k);
            assert(!keys@.subrange(0, idx as int).contains(k)) by {
                if keys@.subrange(0, idx as int).contains(k) {
                    let a = choose|a: int| 0 <= a < idx && keys@.subrange(0, idx as int)[a] == k;
                    assert(keys@[a] == keys@[idx as int]);
                }
            }
            let mut j: usize = 0;
            while j < n.values_out.len()
                invariant
                    j <= n.values_out@.len(),
                    n.values_out@.len() == m[k].values_out.len(),
                    n.kind == m[k].kind,
                    lists_view(n.controls_in@) == m[k].controls_in,
                    lists_view(n.controls_out@) == m[k].controls_out,
                    n.values_in@ == m[k].values_in,
                    forall|p: int|
                        0 <= p < n.values_out@.len() ==> #[trigger] n.values_out@[p]@ == (if p < j {
                            m[k].values_out[p].filter(other_than(Link::Export(outer)))
                        } else {
                            m[k].values_out[p]
                        }),
                decreases n.values_out@.len() - j,
            {
                let filtered = drop_link(&n.values_out[j], Link::Export(outer));
                let ghost before_lists = n.values_out@;
                set_list(&mut n.values_out, j, filtered);
                assert(lists_view(n.values_out@).len() == n.values_out@.len());
                assert(lists_view(before_lists).len() == before_lists.len());
                assert(n.values_out@.len() == before_lists.len());
                assert forall|p: int| 0 <= p < n.values_out@.len() implies #[trigger] n.values_out@[p]@
                    == (if p < j + 1 {
                    m[k].values_out[p].filter(other_than(Link::Export(outer)))
                } else {
                    m[k].values_out[p]
                }) by {
                    assert(lists_view(n.values_out@)[p] == n.values_out@[p]@);
                    assert(lists_view(before_lists)[p] == before_lists[p]@);
                }
                j = j + 1;
            }
            assert(m1[k] == without_export_out(m[k], outer));
            assert(lists_view(n.values_out@) =~= m1[k].values_out);
            assert(n@ =~= m1[k]);
            self.put_node(k, n);
            let ghost upto = keys@.subrange(0, idx + 1);
            let ghost below = keys@.subrange(0, idx as int);
            assert(upto =~= below.push(k));
            assert forall|x: usize| #[trigger] m.dom().contains(x) implies self@[x] == (if upto.contains(
                x,
            ) {
                m1[x]
            } else {
                m[x]
            }) by {
                if x != k {
                    assert(upto.contains(x) == below.contains(x)) by {
                        if upto.contains(x) {
                            let a = choose|a: int| 0 <= a < upto.len() && upto[a] == x;
                            assert(below[a] == x);
                        }
                        if below.contains(x) {
                            let a = choose|a: int| 0 <= a < below.len() && below[a] == x;
                            assert(upto[a] == x);
                        }
                    }
                } else {
                    assert(upto[idx as int] == k);
                }
            }
            idx = idx + 1;
        }
        assert forall|x: usize| #[trigger] m.dom().contains(x) implies self@[x] == m1[x] by {
            assert(keys@.subrange(0, keys@.len() as int) =~= keys@);
        }
        assert(self@ =~= m1);
        proof {
            if wf(m) {
                lemma_unexport_value_out_wf(m, outer);
            }
        }
    }

    /// Makes output `inner` the one node output linked to output `outer`
    /// of the graph's interface.
    pub fn export_value_out(&mut self, inner: Connection, outer: usize)
        requires
            value_out_at(old(self)@, inner),
        ensures
            final(self)@ == export_value_out_spec(old(self)@, inner, outer),
            wf(old(self)@) ==> wf(final(self)@),
            final(self).class == old(self).class,
            final(self).name == old(self).name,
            final(self).next_key() == old(self).next_key(),
            final(self).keys_dense() == old(self).keys_dense(),
    {
        let ghost m = self@;
        let ghost m1 = m.map_values(|n: NodeView| without_export_out(n, outer));
        self.unexport_value_out(outer);
        let ghost mid = self@;
        assert(m1[inner.0.0] == without_export_out(m[inner.0.0], outer));
        assert(m1[inner.0.0].values_out.len() == m[inner.0.0].values_out.len());
        let mut n = self.take_node(inner.0.0);
        push_link(&mut n.values_out, inner.1, Link::Export(outer));
        assert(n@ =~= with_value_out(m1[inner.0.0], inner.1 as int, Link::Export(outer)));
        self.put_node(inner.0.0, n);
        proof {
            if wf(m) {
                assert(self@ == export_value_out_spec(m, inner, outer));
                lemma_export_value_out_wf(m, inner, outer);
            }
        }
    }
}

} // verus!

verus! {

// ---------------------------------------------------------------------------
// Removing a node.
// ---------------------------------------------------------------------------

/// The input without its link if that link ends at node `key`.
pub open spec fn clear_if_touching(v: ValueIn, key: usize) -> ValueIn {
    if v.link matches Some(l) && touches(l, key) {
        ValueIn { default: v.default, link: None }
    } else {
        v
    }
}

/// The node without the links that end at node `key`.
pub open spec fn strip_node(n: NodeView, key: usize) -> NodeView {
    NodeView {
        kind: n.kind,
        controls_in: n.controls_in.map_values(|l: Seq<Link>| l.filter(away_from(key))),
        controls_out: n.controls_out.map_values(|l: Seq<Link>| l.filter(away_from(key))),
        values_in: n.values_in.map_values(|v: ValueIn| clear_if_touching(v, key)),
        values_out: n.values_out.map_values(|l: Seq<Link>| l.filter(away_from(key))),
    }
}

/// The graph after node `key` is removed: the other nodes lose their links
/// to it.
pub open spec fn remove_spec(m: Map<usize, NodeView>, key: usize) -> Map<usize, NodeView> {
    m.remove(key).map_values(|n: NodeView| strip_node(n, key))
}

/// No pin of the node links to the node itself.
pub open spec fn no_self_links(n: NodeView, key: usize) -> bool {
    &&& forall|i: int|
        0 <= i < n.values_in.len() ==> !(#[trigger] n.values_in[i].link matches Some(l) && touches(
            l,
            key,
        ))
    &&& forall|j: int, t: int|
        0 <= j < n.values_out.len() && 0 <= t < n.values_out[j].len() ==> !touches(
            #[trigger] n.values_out[j][t],
            key,
        )
    &&& forall|j: int, t: int|
        0 <= j < n.controls_out.len() && 0 <= t < n.controls_out[j].len() ==> !touches(
            #[trigger] n.controls_out[j][t],
            key,
        )
    &&& forall|j: int, t: int|
        0 <= j < n.controls_in.len() && 0 <= t < n.controls_in[j].len() ==> !touches(
            #[trigger] n.controls_in[j][t],
            key,
        )
}

proof fn lemma_filter_all_pass(s: Seq<Link>, p: spec_fn(Link) -> bool)
    requires
        forall|i: int| 0 <= i < s.len() ==> p(#[trigger] s[i]),
    ensures
        s.filter(p) == s,
    decreases s.len(),
{
    reveal_with_fuel(Seq::<_>::filter, 1);
    if s.len() > 0 {
        lemma_filter_all_pass(s.drop_last(), p);
        assert(s.drop_last().push(s.last()) =~= s);
    }
}

proof fn lemma_filter_twice(s: Seq<Link>, p: spec_fn(Link) -> bool)
    ensures
        s.filter(p).filter(p) == s.filter(p),
{
    broadcast use vstd::seq_lib::group_filter_ensures;

    assert forall|i: int| 0 <= i < s.filter(p).len() implies p(#[trigger] s.filter(p)[i]) by {
        s.lemma_filter_pred(p, i);
    }
    lemma_filter_all_pass(s.filter(p), p);
}

/// Stripping pins that hold no link to `key` changes nothing.
proof fn lemma_strip_untouched(s: Seq<Link>, key: usize)
    requires
        forall|t: int| 0 <= t < s.len() ==> !touches(#[trigger] s[t], key),
    ensures
        s.filter(away_from(key)) == s,
{
    lemma_filter_all_pass(s, away_from(key));
}

/// `cur` is `base` with the value outputs in `da`, the inputs in `db`, the
/// control outputs in `dc` and the control inputs in `dd` stripped of
/// their links to node `key`.
pub open spec fn partly_stripped(
    cur: Map<usize, NodeView>,
    base: Map<usize, NodeView>,
    key: usize,
    da: Set<(usize, int)>,
    db: Set<(usize, int)>,
    dc: Set<(usize, int)>,
    dd: Set<(usize, int)>,
) -> bool {
    &&& cur.dom() == base.dom()
    &&& forall|k: usize|
        #[trigger] base.dom().contains(k) ==> {
            &&& cur[k].kind == base[k].kind
            &&& cur[k].values_out.len() == base[k].values_out.len()
            &&& cur[k].values_in.len() == base[k].values_in.len()
            &&& cur[k].controls_out.len() == base[k].controls_out.len()
            &&& cur[k].controls_in.len() == base[k].controls_in.len()
        }
    &&& forall|k: usize, p: int|
        base.dom().contains(k) && 0 <= p < base[k].values_out.len() ==> #[trigger] cur[k].values_out[p]
            == (if da.contains((k, p)) {
            base[k].values_out[p].filter(away_from(key))
        } else {
            base[k].values_out[p]
        })
    &&& forall|k: usize, p: int|
        base.dom().contains(k) && 0 <= p < base[k].values_in.len() ==> #[trigger] cur[k].values_in[p]
            == (if db.contains((k, p)) {
            clear_if_touching(base[k].values_in[p], key)
        } else {
            base[k].values_in[p]
        })
    &&& forall|k: usize, p: int|
        base.dom().contains(k) && 0 <= p < base[k].controls_out.len() ==> #[trigger] cur[k].controls_out[p]
            == (if dc.contains((k, p)) {
            base[k].controls_out[p].filter(away_from(key))
        } else {
            base[k].controls_out[p]
        })
    &&& forall|k: usize, p: int|
        base.dom().contains(k) && 0 <= p < base[k].controls_in.len() ==> #[trigger] cur[k].controls_in[p]
            == (if dd.contains((k, p)) {
            base[k].controls_in[p].filter(away_from(key))
        } else {
            base[k].controls_in[p]
        })
}

/// Once every pin with a link to `key` is stripped, the graph is the one
/// that removing `key` gives.
proof fn lemma_stripped_is_removed(
    m: Map<usize, NodeView>,
    cur: Map<usize, NodeView>,
    key: usize,
    da: Set<(usize, int)>,
    db: Set<(usize, int)>,
    dc: Set<(usize, int)>,
    dd: Set<(usize, int)>,
)
    requires
        wf(m),
        m.dom().contains(key),
        partly_stripped(cur, m.remove(key), key, da, db, dc, dd),
        forall|i: int|
            0 <= i < m[key].values_in.len() ==> (#[trigger] m[key].values_in[i].link matches Some(
                Link::Connection(c),
            ) ==> da.contains((c.0.0, c.1 as int))),
        forall|j: int, t: int|
            0 <= j < m[key].values_out.len() && 0 <= t < m[key].values_out[j].len() ==> (
            #[trigger] m[key].values_out[j][t] matches Link::Connection(c) ==> db.contains(
                (c.0.0, c.1 as int),
            )),
        forall|i: int, t: int|
            0 <= i < m[key].controls_in.len() && 0 <= t < m[key].controls_in[i].len() ==> (
            #[trigger] m[key].controls_in[i][t] matches Link::Connection(c) ==> dc.contains(
                (c.0.0, c.1 as int),
            )),
        forall|j: int, t: int|
            0 <= j < m[key].controls_out.len() && 0 <= t < m[key].controls_out[j].len() ==> (
            #[trigger] m[key].controls_out[j][t] matches Link::Connection(c) ==> dd.contains(
                (c.0.0, c.1 as int),
            )),
    ensures
        cur == remove_spec(m, key),
{
    let base = m.remove(key);
    let r = remove_spec(m, key);
    assert(cur.dom() =~= r.dom());
    assert forall|k: usize| #[trigger] cur.dom().contains(k) implies cur[k] == r[k] by {
        let b = base[k];
        let s = strip_node(b, key);
        assert(r[k] == s);
        assert(k != key);
        // value outputs
        assert forall|p: int| 0 <= p < b.values_out.len() implies #[trigger] cur[k].values_out[p]
            == s.values_out[p] by {
            if !da.contains((k, p)) {
                assert forall|t: int| 0 <= t < b.values_out[p].len() implies !touches(
                    #[trigger] b.values_out[p][t],
                    key,
                ) by {
                    assert(value_out_ok(m, k, p, t));
                    if let Link::Connection(c) = b.values_out[p][t] {
                        if c.0.0 == key {
                            assert(value_in_ok(m, key, c.1 as int));
                        }
                    }
                }
                lemma_strip_untouched(b.values_out[p], key);
            }
        }
        assert(cur[k].values_out =~= s.values_out);
        // inputs
        assert forall|p: int| 0 <= p < b.values_in.len() implies #[trigger] cur[k].values_in[p]
            == s.values_in[p] by {
            if !db.contains((k, p)) {
                assert(value_in_ok(m, k, p));
                if let Some(Link::Connection(c)) = b.values_in[p].link {
                    if c.0.0 == key {
                        let x = conn(k, p as usize);
                        assert(m[key].values_out[c.1 as int].contains(x));
                        let t = choose|t: int|
                            0 <= t < m[key].values_out[c.1 as int].len() && m[key].values_out[c.1 as int][t]
                                == x;
                        assert(m[key].values_out[c.1 as int][t] == x);
                    }
                }
            }
        }
        assert(cur[k].values_in =~= s.values_in);
        // control outputs
        assert forall|p: int| 0 <= p < b.controls_out.len() implies #[trigger] cur[k].controls_out[p]
            == s.controls_out[p] by {
            if !dc.contains((k, p)) {
                assert forall|t: int| 0 <= t < b.controls_out[p].len() implies !touches(
                    #[trigger] b.controls_out[p][t],
                    key,
                ) by {
                    assert(control_out_ok(m, k, p, t));
                    if let Link::Connection(c) = b.controls_out[p][t] {
                        if c.0.0 == key {
                            let x = conn(k, p as usize);
                            let u = choose|u: int|
                                0 <= u < m[key].controls_in[c.1 as int].len()
                                    && m[key].controls_in[c.1 as int][u] == x;
                            assert(m[key].controls_in[c.1 as int][u] == x);
                        }
                    }
                }
                lemma_strip_untouched(b.controls_out[p], key);
            }
        }
        assert(cur[k].controls_out =~= s.controls_out);
        // control inputs
        assert forall|p: int| 0 <= p < b.controls_in.len() implies #[trigger] cur[k].controls_in[p]
            == s.controls_in[p] by {
            if !dd.contains((k, p)) {
                assert forall|t: int| 0 <= t < b.controls_in[p].len() implies !touches(
                    #[trigger] b.controls_in[p][t],
                    key,
                ) by {
                    assert(control_in_ok(m, k, p, t));
                    if let Link::Connection(c) = b.controls_in[p][t] {
                        if c.0.0 == key {
                            let x = conn(k, p as usize);
                            let u = choose|u: int|
                                0 <= u < m[key].controls_out[c.1 as int].len()
                                    && m[key].controls_out[c.1 as int][u] == x;
                            assert(m[key].controls_out[c.1 as int][u] == x);
                        }
                    }
                }
                lemma_strip_untouched(b.controls_in[p], key);
            }
        }
        assert(cur[k].controls_in =~= s.controls_in);
        assert(cur[k] =~= s);
    }
    assert(cur =~= r);
}

} // verus!

verus! {

/// Removing a node keeps a graph well formed.
proof fn lemma_remove_wf(m: Map<usize, NodeView>, key: usize)
    requires
        wf(m),
        m.dom().contains(key),
    ensures
        wf(remove_spec(m, key)),
{
    let r = remove_spec(m, key);
    assert forall|k: usize| #[trigger] r.dom().contains(k) implies shape_ok(r[k]) by {
        assert(shape_ok(m[k]));
    }
    assert forall|k: usize, i: int|
        r.dom().contains(k) && 0 <= i < r[k].values_in.len() implies #[trigger] value_in_ok(
        r,
        k,
        i,
    ) by {
        assert(value_in_ok(m, k, i));
        if let Some(Link::Connection(c)) = r[k].values_in[i].link {
            assert(m[k].values_in[i].link == Some(Link::Connection(c)));
            let x = conn(k, i as usize);
            lemma_filter_member(m[c.0.0].values_out[c.1 as int], away_from(key), x);
        }
    }
    assert forall|k: usize, j: int, t: int|
        r.dom().contains(k) && 0 <= j < r[k].values_out.len() && 0 <= t
            < r[k].values_out[j].len() implies #[trigger] value_out_ok(r, k, j, t) by {
        let x = r[k].values_out[j][t];
        assert(r[k].values_out[j].contains(x));
        lemma_filter_member(m[k].values_out[j], away_from(key), x);
        if let Link::Connection(c) = x {
            lemma_value_out_member(m, k, j, x);
        }
    }
    assert forall|k: usize, j: int, t: int|
        r.dom().contains(k) && 0 <= j < r[k].controls_out.len() && 0 <= t
            < r[k].controls_out[j].len() implies #[trigger] control_out_ok(r, k, j, t) by {
        let x = r[k].controls_out[j][t];
        assert(r[k].controls_out[j].contains(x));
        lemma_filter_member(m[k].controls_out[j], away_from(key), x);
        if let Link::Connection(c) = x {
            let u = choose|u: int| 0 <= u < m[k].controls_out[j].len() && m[k].controls_out[j][u] == x;
            assert(control_out_ok(m, k, j, u));
            lemma_filter_member(m[c.0.0].controls_in[c.1 as int], away_from(key), conn(k, j as usize));
        }
    }
    assert forall|k: usize, i: int, t: int|
        r.dom().contains(k) && 0 <= i < r[k].controls_in.len() && 0 <= t
            < r[k].controls_in[i].len() implies #[trigger] control_in_ok(r, k, i, t) by {
        let x = r[k].controls_in[i][t];
        assert(r[k].controls_in[i].contains(x));
        lemma_filter_member(m[k].controls_in[i], away_from(key), x);
        if let Link::Connection(c) = x {
            let u = choose|u: int| 0 <= u < m[k].controls_in[i].len() && m[k].controls_in[i][u] == x;
            assert(control_in_ok(m, k, i, u));
            lemma_filter_member(m[c.0.0].controls_out[c.1 as int], away_from(key), conn(k, i as usize));
        }
    }
}

} // verus!

verus! {

/// Stripping value output (`r`, `p`) once more keeps the graph partly stripped.
proof fn lemma_strip_step_vout(
    cur: Map<usize, NodeView>,
    base: Map<usize, NodeView>,
    key: usize,
    da: Set<(usize, int)>,
    db: Set<(usize, int)>,
    dc: Set<(usize, int)>,
    dd: Set<(usize, int)>,
    r: usize,
    p: int,
    n: NodeView,
)
    requires
        partly_stripped(cur, base, key, da, db, dc, dd),
        base.dom().contains(r),
        0 <= p < base[r].values_out.len(),
        n == (NodeView { values_out: cur[r].values_out.update(p, cur[r].values_out[p].filter(away_from(key))), ..cur[r] }),
    ensures
        partly_stripped(cur.insert(r, n), base, key, da.insert((r, p)), db, dc, dd),
{
    let cur2 = cur.insert(r, n);
    lemma_filter_twice(base[r].values_out[p], away_from(key));
    assert(cur2.dom() =~= base.dom());
}

/// Stripping input (`r`, `p`) once more keeps the graph partly stripped.
proof fn lemma_strip_step_vin(
    cur: Map<usize, NodeView>,
    base: Map<usize, NodeView>,
    key: usize,
    da: Set<(usize, int)>,
    db: Set<(usize, int)>,
    dc: Set<(usize, int)>,
    dd: Set<(usize, int)>,
    r: usize,
    p: int,
    n: NodeView,
)
    requires
        partly_stripped(cur, base, key, da, db, dc, dd),
        base.dom().contains(r),
        0 <= p < base[r].values_in.len(),
        n == (NodeView { values_in: cur[r].values_in.update(p, clear_if_touching(cur[r].values_in[p], key)), ..cur[r] }),
    ensures
        partly_stripped(cur.insert(r, n), base, key, da, db.insert((r, p)), dc, dd),
{
    let cur2 = cur.insert(r, n);
    
    assert(cur2.dom() =~= base.dom());
}

/// Stripping control output (`r`, `p`) once more keeps the graph partly stripped.
proof fn lemma_strip_step_cout(
    cur: Map<usize, NodeView>,
    base: Map<usize, NodeView>,
    key: usize,
    da: Set<(usize, int)>,
    db: Set<(usize, int)>,
    dc: Set<(usize, int)>,
    dd: Set<(usize, int)>,
    r: usize,
    p: int,
    n: NodeView,
)
    requires
        partly_stripped(cur, base, key, da, db, dc, dd),
        base.dom().contains(r),
        0 <= p < base[r].controls_out.len(),
        n == (NodeView { controls_out: cur[r].controls_out.update(p, cur[r].controls_out[p].filter(away_from(key))), ..cur[r] }),
    ensures
        partly_stripped(cur.insert(r, n), base, key, da, db, dc.insert((r, p)), dd),
{
    let cur2 = cur.insert(r, n);
    lemma_filter_twice(base[r].controls_out[p], away_from(key));
    assert(cur2.dom() =~= base.dom());
}

/// Stripping control input (`r`, `p`) once more keeps the graph partly stripped.
proof fn lemma_strip_step_cin(
    cur: Map<usize, NodeView>,
    base: Map<usize, NodeView>,
    key: usize,
    da: Set<(usize, int)>,
    db: Set<(usize, int)>,
    dc: Set<(usize, int)>,
    dd: Set<(usize, int)>,
    r: usize,
    p: int,
    n: NodeView,
)
    requires
        partly_stripped(cur, base, key, da, db, dc, dd),
        base.dom().contains(r),
        0 <= p < base[r].controls_in.len(),
        n == (NodeView { controls_in: cur[r].controls_in.update(p, cur[r].controls_in[p].filter(away_from(key))), ..cur[r] }),
    ensures
        partly_stripped(cur.insert(r, n), base, key, da, db, dc, dd.insert((r, p))),
{
    let cur2 = cur.insert(r, n);
    lemma_filter_twice(base[r].controls_in[p], away_from(key));
    assert(cur2.dom() =~= base.dom());
}

} // verus!

verus! {

impl NodeGraph {
    /// Removes node `key` and returns it; every other node loses its links
    /// to it.
    pub fn remove(&mut self, key: NodeRef) -> (r: Node)
        requires
            wf(old(self)@),
            old(self)@.dom().contains(key.0),
            no_self_links(old(self)@[key.0], key.0),
        ensures
            r@ == old(self)@[key.0],
            final(self)@ == remove_spec(old(self)@, key.0),
            wf(final(self)@),
            final(self).class == old(self).class,
            final(self).name == old(self).name,
            final(self).next_key() == key.0,
    {
        let ghost m = self@;
        let ghost kk = key.0;
        proof {
            lemma_view_remove(slab_nodes(self.nodes), key.0);
        }
        let node = slab_remove(&mut self.nodes, key.0);
        let ghost base = m.remove(kk);
        let ghost nk = m[kk];
        let ghost mut da = Set::<(usize, int)>::empty();
        let ghost mut db = Set::<(usize, int)>::empty();
        let ghost mut dc = Set::<(usize, int)>::empty();
        let ghost mut dd = Set::<(usize, int)>::empty();
        assert(self@ =~= base);
        assert(partly_stripped(self@, base, kk, da, db, dc, dd));
        // The value outputs that feed the node's inputs.
        let mut i: usize = 0;
        while i < node.values_in.len()
            invariant
                self.next_key() == key.0,
                node@ == nk,
                wf(m),
                m.dom().contains(kk),
                kk == key.0,
                base == m.remove(kk),
                nk == m[kk],
                no_self_links(nk, kk),
                i <= nk.values_in.len(),
                partly_stripped(self@, base, kk, da, db, dc, dd),
                forall|i2: int|
                    0 <= i2 < i ==> (#[trigger] nk.values_in[i2].link matches Some(
                        Link::Connection(c),
                    ) ==> da.contains((c.0.0, c.1 as int))),
                self.class == old(self).class,
                self.name == old(self).name,
            decreases nk.values_in.len() - i,
        {
            if let Some(Link::Connection(Connection(r, p))) = node.values_in[i].link {
                proof {
                    assert(value_in_ok(m, kk, i as int));
                    assert(r.0 != kk);
                }
                let ghost cur = self@;
                let mut n = self.take_node(r.0);
                let filtered = drop_links_to(&n.values_out[p], key.0);
                set_list(&mut n.values_out, p, filtered);
                assert(n@ =~= NodeView {
                    values_out: cur[r.0].values_out.update(
                        p as int,
                        cur[r.0].values_out[p as int].filter(away_from(kk)),
                    ),
                    ..cur[r.0]
                });
                self.put_node(r.0, n);
                proof {
                    lemma_strip_step_vout(cur, base, kk, da, db, dc, dd, r.0, p as int, n@);
                    da = da.insert((r.0, p as int));
                }
            }
            i = i + 1;
        }
        // The inputs that the node's value outputs feed.
        let mut j: usize = 0;
        while j < node.values_out.len()
            invariant
                self.next_key() == key.0,
                node@ == nk,
                wf(m),
                m.dom().contains(kk),
                kk == key.0,
                base == m.remove(kk),
                nk == m[kk],
                no_self_links(nk, kk),
                j <= nk.values_out.len(),
                partly_stripped(self@, base, kk, da, db, dc, dd),
                forall|i2: int|
                    0 <= i2 < nk.values_in.len() ==> (#[trigger] nk.values_in[i2].link matches Some(
                        Link::Connection(c),
                    ) ==> da.contains((c.0.0, c.1 as int))),
                forall|j2: int, t: int|
                    0 <= j2 < j && 0 <= t < nk.values_out[j2].len() ==> (
                    #[trigger] nk.values_out[j2][t] matches Link::Connection(c) ==> db.contains(
                        (c.0.0, c.1 as int),
                    )),
                self.class == old(self).class,
                self.name == old(self).name,
            decreases nk.values_out.len() - j,
        {
            let mut t: usize = 0;
            while t < node.values_out[j].len()
                invariant
                    self.next_key() == key.0,
                    node@ == nk,
                    wf(m),
                    m.dom().contains(kk),
                    kk == key.0,
                    base == m.remove(kk),
                    nk == m[kk],
                    no_self_links(nk, kk),
                    j < nk.values_out.len(),
                    t <= nk.values_out[j as int].len(),
                    partly_stripped(self@, base, kk, da, db, dc, dd),
                    forall|i2: int|
                        0 <= i2 < nk.values_in.len() ==> (#[trigger] nk.values_in[i2].link matches Some(
                            Link::Connection(c),
                        ) ==> da.contains((c.0.0, c.1 as int))),
                    forall|j2: int, t2: int|
                        0 <= j2 < j && 0 <= t2 < nk.values_out[j2].len() ==> (
                        #[trigger] nk.values_out[j2][t2] matches Link::Connection(c) ==> db.contains(
                            (c.0.0, c.1 as int),
                        )),
                    forall|t2: int|
                        0 <= t2 < t ==> (#[trigger] nk.values_out[j as int][t2] matches Link::Connection(
                            c,
                        ) ==> db.contains((c.0.0, c.1 as int))),
                    self.class == old(self).class,
                    self.name == old(self).name,
                decreases nk.values_out[j as int].len() - t,
            {
                assert(node.values_out@[j as int]@ == nk.values_out[j as int]);
                if let Link::Connection(Connection(r, p)) = node.values_out[j][t] {
                    proof {
                        assert(value_out_ok(m, kk, j as int, t as int));
                        assert(r.0 != kk);
                    }
                    let ghost cur = self@;
                    let mut n = self.take_node(r.0);
                    let l = n.values_in[p].link;
                    if let Some(Link::Connection(Connection(x, _))) = l {
                        if x.0 == key.0 {
                            set_input_link(&mut n.values_in, p, None);
                        }
                    }
                    assert(n@ =~= NodeView {
                        values_in: cur[r.0].values_in.update(
                            p as int,
                            clear_if_touching(cur[r.0].values_in[p as int], kk),
                        ),
                        ..cur[r.0]
                    });
                    self.put_node(r.0, n);
                    proof {
                        lemma_strip_step_vin(cur, base, kk, da, db, dc, dd, r.0, p as int, n@);
                        db = db.insert((r.0, p as int));
                    }
                }
                t = t + 1;
            }
            j = j + 1;
        }
        // The control outputs that lead to the node.
        let mut i: usize = 0;
        while i < node.controls_in.len()
            invariant
                self.next_key() == key.0,
                node@ == nk,
                wf(m),
                m.dom().contains(kk),
                kk == key.0,
                base == m.remove(kk),
                nk == m[kk],
                no_self_links(nk, kk),
                i <= nk.controls_in.len(),
                partly_stripped(self@, base, kk, da, db, dc, dd),
                forall|i2: int|
                    0 <= i2 < nk.values_in.len() ==> (#[trigger] nk.values_in[i2].link matches Some(
                        Link::Connection(c),
                    ) ==> da.contains((c.0.0, c.1 as int))),
                forall|j2: int, t2: int|
                    0 <= j2 < nk.values_out.len() && 0 <= t2 < nk.values_out[j2].len() ==> (
                    #[trigger] nk.values_out[j2][t2] matches Link::Connection(c) ==> db.contains(
                        (c.0.0, c.1 as int),
                    )),
                forall|i2: int, t2: int|
                    0 <= i2 < i && 0 <= t2 < nk.controls_in[i2].len() ==> (
                    #[trigger] nk.controls_in[i2][t2] matches Link::Connection(c) ==> dc.contains(
                        (c.0.0, c.1 as int),
                    )),
                self.class == old(self).class,
                self.name == old(self).name,
            decreases nk.controls_in.len() - i,
        {
            let mut t: usize = 0;
            while t < node.controls_in[i].len()
                invariant
                    self.next_key() == key.0,
                    node@ == nk,
                    wf(m),
                    m.dom().contains(kk),
                    kk == key.0,
                    base == m.remove(kk),
                    nk == m[kk],
                    no_self_links(nk, kk),
                    i < nk.controls_in.len(),
                    t <= nk.controls_in[i as int].len(),
                    partly_stripped(self@, base, kk, da, db, dc, dd),
                    forall|i2: int|
                        0 <= i2 < nk.values_in.len() ==> (#[trigger] nk.values_in[i2].link matches Some(
                            Link::Connection(c),
                        ) ==> da.contains((c.0.0, c.1 as int))),
                    forall|j2: int, t2: int|
                        0 <= j2 < nk.values_out.len() && 0 <= t2 < nk.values_out[j2].len() ==> (
                        #[trigger] nk.values_out[j2][t2] matches Link::Connection(c) ==> db.contains(
                            (c.0.0, c.1 as int),
                        )),
                    forall|i2: int, t2: int|
                        0 <= i2 < i && 0 <= t2 < nk.controls_in[i2].len() ==> (
                        #[trigger] nk.controls_in[i2][t2] matches Link::Connection(c) ==> dc.contains(
                            (c.0.0, c.1 as int),
                        )),
                    forall|t2: int|
                        0 <= t2 < t ==> (#[trigger] nk.controls_in[i as int][t2] matches Link::Connection(
                            c,
                        ) ==> dc.contains((c.0.0, c.1 as int))),
                    self.class == old(self).class,
                    self.name == old(self).name,
                decreases nk.controls_in[i as int].len() - t,
            {
                assert(node.controls_in@[i as int]@ == nk.controls_in[i as int]);
                if let Link::Connection(Connection(r, p)) = node.controls_in[i][t] {
                    proof {
                        assert(control_in_ok(m, kk, i as int, t as int));
                        assert(r.0 != kk);
                    }
                    let ghost cur = self@;
                    let mut n = self.take_node(r.0);
                    let filtered = drop_links_to(&n.controls_out[p], key.0);
                    set_list(&mut n.controls_out, p, filtered);
                    assert(n@ =~= NodeView {
                        controls_out: cur[r.0].controls_out.update(
                            p as int,
                            cur[r.0].controls_out[p as int].filter(away_from(kk)),
                        ),
                        ..cur[r.0]
                    });
                    self.put_node(r.0, n);
                    proof {
                        lemma_strip_step_cout(cur, base, kk, da, db, dc, dd, r.0, p as int, n@);
                        dc = dc.insert((r.0, p as int));
                    }
                }
                t = t + 1;
            }
            i = i + 1;
        }
        // The control inputs that the node leads to.
        let mut j: usize = 0;
        while j < node.controls_out.len()
            invariant
                self.next_key() == key.0,
                node@ == nk,
                wf(m),
                m.dom().contains(kk),
                kk == key.0,
                base == m.remove(kk),
                nk == m[kk],
                no_self_links(nk, kk),
                j <= nk.controls_out.len(),
                partly_stripped(self@, base, kk, da, db, dc, dd),
                forall|i2: int|
                    0 <= i2 < nk.values_in.len() ==> (#[trigger] nk.values_in[i2].link matches Some(
                        Link::Connection(c),
                    ) ==> da.contains((c.0.0, c.1 as int))),
                forall|j2: int, t2: int|
                    0 <= j2 < nk.values_out.len() && 0 <= t2 < nk.values_out[j2].len() ==> (
                    #[trigger] nk.values_out[j2][t2] matches Link::Connection(c) ==> db.contains(
                        (c.0.0, c.1 as int),
                    )),
                forall|i2: int, t2: int|
                    0 <= i2 < nk.controls_in.len() && 0 <= t2 < nk.controls_in[i2].len() ==> (
                    #[trigger] nk.controls_in[i2][t2] matches Link::Connection(c) ==> dc.contains(
                        (c.0.0, c.1 as int),
                    )),
                forall|j2: int, t2: int|
                    0 <= j2 < j && 0 <= t2 < nk.controls_out[j2].len() ==> (
                    #[trigger] nk.controls_out[j2][t2] matches Link::Connection(c) ==> dd.contains(
                        (c.0.0, c.1 as int),
                    )),
                self.class == old(self).class,
                self.name == old(self).name,
            decreases nk.controls_out.len() - j,
        {
            let mut t: usize = 0;
            while t < node.controls_out[j].len()
                invariant
                    self.next_key() == key.0,
                    node@ == nk,
                    wf(m),
                    m.dom().contains(kk),
                    kk == key.0,
                    base == m.remove(kk),
                    nk == m[kk],
                    no_self_links(nk, kk),
                    j < nk.controls_out.len(),
                    t <= nk.controls_out[j as int].len(),
                    partly_stripped(self@, base, kk, da, db, dc, dd),
                    forall|i2: int|
                        0 <= i2 < nk.values_in.len() ==> (#[trigger] nk.values_in[i2].link matches Some(
                            Link::Connection(c),
                        ) ==> da.contains((c.0.0, c.1 as int))),
                    forall|j2: int, t2: int|
                        0 <= j2 < nk.values_out.len() && 0 <= t2 < nk.values_out[j2].len() ==> (
                        #[trigger] nk.values_out[j2][t2] matches Link::Connection(c) ==> db.contains(
                            (c.0.0, c.1 as int),
                        )),
                    forall|i2: int, t2: int|
                        0 <= i2 < nk.controls_in.len() && 0 <= t2 < nk.controls_in[i2].len() ==> (
                        #[trigger] nk.controls_in[i2][t2] matches Link::Connection(c) ==> dc.contains(
                            (c.0.0, c.1 as int),
                        )),
                    forall|j2: int, t2: int|
                        0 <= j2 < j && 0 <= t2 < nk.controls_out[j2].len() ==> (
                        #[trigger] nk.controls_out[j2][t2] matches Link::Connection(c) ==> dd.contains(
                            (c.0.0, c.1 as int),
                        )),
                    forall|t2: int|
                        0 <= t2 < t ==> (#[trigger] nk.controls_out[j as int][t2] matches Link::Connection(
                            c,
                        ) ==> dd.contains((c.0.0, c.1 as int))),
                    self.class == old(self).class,
                    self.name == old(self).name,
                decreases nk.controls_out[j as int].len() - t,
            {
                assert(node.controls_out@[j as int]@ == nk.controls_out[j as int]);
                if let Link::Connection(Connection(r, p)) = node.controls_out[j][t] {
                    proof {
                        assert(control_out_ok(m, kk, j as int, t as int));
                        assert(r.0 != kk);
                    }
                    let ghost cur = self@;
                    let mut n = self.take_node(r.0);
                    let filtered = drop_links_to(&n.controls_in[p], key.0);
                    set_list(&mut n.controls_in, p, filtered);
                    assert(n@ =~= NodeView {
                        controls_in: cur[r.0].controls_in.update(
                            p as int,
                            cur[r.0].controls_in[p as int].filter(away_from(kk)),
                        ),
                        ..cur[r.0]
                    });
                    self.put_node(r.0, n);
                    proof {
                        lemma_strip_step_cin(cur, base, kk, da, db, dc, dd, r.0, p as int, n@);
                        dd = dd.insert((r.0, p as int));
                    }
                }
                t = t + 1;
            }
            j = j + 1;
        }
        proof {
            lemma_stripped_is_removed(m, self@, kk, da, db, dc, dd);
            lemma_remove_wf(m, kk);
        }
        node
    }
}

} // verus!

verus! {

// ---------------------------------------------------------------------------
// Blocks of control flow.
// ---------------------------------------------------------------------------

/// A run of control flow: it is entered at `begin` and left at `end`.
#[derive(Clone, Copy, Debug, PartialEq, Eq, Structural)]
pub struct Block {
    pub begin: Connection,
    pub end: Connection,
}

impl Block {
    /// The block of one node, entered at its first control input and left
    /// at control output `out`.
    pub fn singleton(node: NodeRef, out: usize) -> (r: Self)
        ensures
            r.begin == Connection(node, 0),
            r.end == Connection(node, out),
    {
        Self { begin: Connection(node, 0), end: Connection(node, out) }
    }

    /// A block that does nothing: a new `if` node whose condition is the
    /// constant true, entered and left at its first control pins.
    pub fn nop(graph: &mut NodeGraph) -> (r: Self)
        requires
            wf(old(graph)@),
        ensures
            r.begin == Connection(r.begin.0, 0),
            r.end == Connection(r.begin.0, 0),
            !old(graph)@.dom().contains(r.begin.0.0),
            exists|nv: NodeView|
                {
                    &&& fresh(nv)
                    &&& nv.kind.id == (NodeId::Low { kind: AssetKind::SysCallStub, id: 2 })
                    &&& nv.kind.kernel_id == 2
                    &&& nv.kind.controls_in_num == 1
                    &&& nv.kind.controls_out_num == 2
                    &&& nv.kind.values_in_types@ == seq![Some(bool_type())]
                    &&& final(graph)@ == #[trigger] set_default_spec(
                        old(graph)@.insert(r.begin.0.0, nv),
                        Connection(r.begin.0, 0),
                        AnyValue::Bool(ValueBool(true)),
                    )
                },
            wf(final(graph)@),
            final(graph).class == old(graph).class,
            final(graph).name == old(graph).name,
    {
        let node = graph.insert(Node::new(node_if()));
        let ghost nv = graph@[node.0];
        proof {
            assert(shape_ok(nv));
        }
        graph.set_default(Connection(node, 0), AnyValue::Bool(ValueBool(true)));
        Self::singleton(node, 0)
    }

    /// Runs `other` after this block: the end of this block is linked to
    /// the beginning of `other`, and the block now ends where `other` does.
    pub fn extend(&mut self, graph: &mut NodeGraph, other: Block)
        requires
            wf(old(graph)@),
            control_out_at(old(graph)@, old(self).end),
            control_in_at(old(graph)@, other.begin),
            old(self).end.0.0 != other.begin.0.0,
        ensures
            final(graph)@ == connect_control_spec(old(graph)@, old(self).end, other.begin),
            wf(final(graph)@),
            *final(self) == old(self).joined(other),
    {
        graph.connect_control(self.end, other.begin);
        *self = Self { begin: self.begin, end: other.end };
    }

    /// The block that runs this one and then `other`.
    pub open spec fn joined(self, other: Block) -> Block {
        Block { begin: self.begin, end: other.end }
    }
}

/// Two graphs with the same nodes that differ at most in the order of the
/// links within a list of a control pin: each such list holds the same
/// links, as often, in both.
pub open spec fn same_up_to_link_order(m1: Map<usize, NodeView>, m2: Map<usize, NodeView>) -> bool {
    &&& m1.dom() == m2.dom()
    &&& forall|k: usize|
        #[trigger] m1.dom().contains(k) ==> {
            &&& m1[k].kind == m2[k].kind
            &&& m1[k].values_in == m2[k].values_in
            &&& m1[k].values_out == m2[k].values_out
            &&& m1[k].controls_in.len() == m2[k].controls_in.len()
            &&& m1[k].controls_out.len() == m2[k].controls_out.len()
            &&& forall|i: int|
                0 <= i < m1[k].controls_in.len() ==> (#[trigger] m1[k].controls_in[i]).to_multiset()
                    == m2[k].controls_in[i].to_multiset()
            &&& forall|j: int|
                0 <= j < m1[k].controls_out.len() ==> (#[trigger] m1[k].controls_out[j]).to_multiset()
                    == m2[k].controls_out[j].to_multiset()
        }
}

/// Extending block `a` by `o1` and then by `o2` leaves the same block, and
/// adds the same control links to the graph, as extending `a` by `o1`
/// already extended by `o2`. Where the two joins share an output pin or an
/// input pin, that pin's list gets the two links in the other order;
/// otherwise the two graphs are equal.
pub proof fn lemma_extend_associative(m: Map<usize, NodeView>, a: Block, o1: Block, o2: Block)
    requires
        control_out_at(m, a.end),
        control_in_at(m, o1.begin),
        control_out_at(m, o1.end),
        control_in_at(m, o2.begin),
        a.end.0.0 != o1.begin.0.0,
        o1.end.0.0 != o2.begin.0.0,
    ensures
        a.joined(o1).joined(o2) == a.joined(o1.joined(o2)),
        same_up_to_link_order(
            connect_control_spec(connect_control_spec(m, a.end, o1.begin), a.joined(o1).end, o2.begin),
            connect_control_spec(connect_control_spec(m, o1.end, o2.begin), a.end, o1.joined(o2).begin),
        ),
        a.end != o1.end && o1.begin != o2.begin ==> connect_control_spec(
            connect_control_spec(m, a.end, o1.begin),
            a.joined(o1).end,
            o2.begin,
        ) == connect_control_spec(
            connect_control_spec(m, o1.end, o2.begin),
            a.end,
            o1.joined(o2).begin,
        ),
{
    broadcast use vstd::seq_lib::group_to_multiset_ensures;

    let l = connect_control_spec(connect_control_spec(m, a.end, o1.begin), o1.end, o2.begin);
    let r = connect_control_spec(connect_control_spec(m, o1.end, o2.begin), a.end, o1.begin);
    assert(l.dom() =~= r.dom());
    assert forall|k: usize| #[trigger] l.dom().contains(k) implies {
        &&& l[k].kind == r[k].kind
        &&& l[k].values_in == r[k].values_in
        &&& l[k].values_out == r[k].values_out
        &&& l[k].controls_in.len() == r[k].controls_in.len()
        &&& l[k].controls_out.len() == r[k].controls_out.len()
        &&& forall|i: int|
            0 <= i < l[k].controls_in.len() ==> (#[trigger] l[k].controls_in[i]).to_multiset()
                == r[k].controls_in[i].to_multiset()
        &&& forall|j: int|
            0 <= j < l[k].controls_out.len() ==> (#[trigger] l[k].controls_out[j]).to_multiset()
                == r[k].controls_out[j].to_multiset()
    } by {
        assert forall|i: int| 0 <= i < l[k].controls_in.len() implies (#[trigger] l[k].controls_in[i]).to_multiset()
            == r[k].controls_in[i].to_multiset() by {
            let s = m[k].controls_in[i];
            if k == o1.begin.0.0 && i == o1.begin.1 && k == o2.begin.0.0 && i == o2.begin.1 {
                let x = Link::Connection(a.end);
                let y = Link::Connection(o1.end);
                assert(l[k].controls_in[i] == s.push(x).push(y));
                assert(r[k].controls_in[i] == s.push(y).push(x));
                assert(s.push(x).push(y).to_multiset() =~= s.push(y).push(x).to_multiset());
            }
        }
        assert forall|j: int| 0 <= j < l[k].controls_out.len() implies (#[trigger] l[k].controls_out[j]).to_multiset()
            == r[k].controls_out[j].to_multiset() by {
            let s = m[k].controls_out[j];
            if k == a.end.0.0 && j == a.end.1 && k == o1.end.0.0 && j == o1.end.1 {
                let x = Link::Connection(o1.begin);
                let y = Link::Connection(o2.begin);
                assert(l[k].controls_out[j] == s.push(x).push(y));
                assert(r[k].controls_out[j] == s.push(y).push(x));
                assert(s.push(x).push(y).to_multiset() =~= s.push(y).push(x).to_multiset());
            }
        }
    }
    if a.end != o1.end && o1.begin != o2.begin {
        assert forall|k: usize| #[trigger] l.dom().contains(k) implies l[k] == r[k] by {
            assert(l[k].controls_out =~= r[k].controls_out);
            assert(l[k].controls_in =~= r[k].controls_in);
        }
        assert(l =~= r);
    }
}

// ---------------------------------------------------------------------------
// Neighbours.
// ---------------------------------------------------------------------------

/// Some pin of the node links to a pin of node `x`.
pub open spec fn is_neighbor(n: NodeView, x: usize) -> bool {
    ||| exists|i: int, t: int|
        0 <= i < n.controls_in.len() && 0 <= t < n.controls_in[i].len() && touches(#[trigger] n.controls_in[i][t], x)
    ||| exists|i: int, t: int|
        0 <= i < n.controls_out.len() && 0 <= t < n.controls_out[i].len() && touches(#[trigger] n.controls_out[i][t], x)
    ||| exists|i: int, t: int|
        0 <= i < n.values_out.len() && 0 <= t < n.values_out[i].len() && touches(#[trigger] n.values_out[i][t], x)
    ||| exists|i: int|
        0 <= i < n.values_in.len() && (#[trigger] n.values_in[i].link matches Some(l) && touches(l, x))
}

/// Adds `x` to `found` unless it is there.
fn add_neighbor(found: &mut Vec<NodeRef>, x: NodeRef)
    ensures
        forall|y: NodeRef| final(found)@.contains(y) <==> old(found)@.contains(y) || y == x,
        (forall|a: int, b: int| 0 <= a < b < old(found)@.len() ==> old(found)@[a] != old(found)@[b])
            ==> (forall|a: int, b: int|
            0 <= a < b < final(found)@.len() ==> final(found)@[a] != final(found)@[b]),
{
    let mut i: usize = 0;
    while i < found.len()
        invariant
            i <= found@.len(),
            found@ == old(found)@,
            forall|j: int| 0 <= j < i ==> found@[j] != x,
        decreases found@.len() - i,
    {
        if found[i] == x {
            return;
        }
        i = i + 1;
    }
    found.push(x);
    assert(forall|j: int| 0 <= j < old(found)@.len() ==> found@[j] == old(found)@[j]);
    assert forall|y: NodeRef| found@.contains(y) <==> old(found)@.contains(y) || y == x by {
        if old(found)@.contains(y) {
            let j = choose|j: int| 0 <= j < old(found)@.len() && old(found)@[j] == y;
            assert(found@[j] == y);
        }
        if found@.contains(y) && y != x {
            let j = choose|j: int| 0 <= j < found@.len() && found@[j] == y;
            assert(old(found)@[j] == y);
        }
        if y == x {
            assert(found@[found@.len() - 1] == x);
        }
    }
}

/// Adds the nodes that the links of `lists` end at.
fn add_list_neighbors(found: &mut Vec<NodeRef>, lists: &Vec<Vec<Link>>)
    ensures
        forall|y: NodeRef|
            final(found)@.contains(y) <==> old(found)@.contains(y) || exists|i: int, t: int|
                0 <= i < lists@.len() && 0 <= t < lists@[i]@.len() && touches(#[trigger] lists@[i]@[t], y.0),
        (forall|a: int, b: int| 0 <= a < b < old(found)@.len() ==> old(found)@[a] != old(found)@[b])
            ==> (forall|a: int, b: int|
            0 <= a < b < final(found)@.len() ==> final(found)@[a] != final(found)@[b]),
{
    let mut i: usize = 0;
    while i < lists.len()
        invariant
            i <= lists@.len(),
            forall|y: NodeRef|
                found@.contains(y) <==> old(found)@.contains(y) || exists|i2: int, t: int|
                    0 <= i2 < i && 0 <= t < lists@[i2]@.len() && touches(#[trigger] lists@[i2]@[t], y.0),
            (forall|a: int, b: int| 0 <= a < b < old(found)@.len() ==> old(found)@[a] != old(found)@[b])
                ==> (forall|a: int, b: int| 0 <= a < b < found@.len() ==> found@[a] != found@[b]),
        decreases lists@.len() - i,
    {
        let mut t: usize = 0;
        while t < lists[i].len()
            invariant
                i < lists@.len(),
                t <= lists@[i as int]@.len(),
                forall|y: NodeRef|
                    found@.contains(y) <==> old(found)@.contains(y) || (exists|i2: int, t2: int|
                        0 <= i2 < i && 0 <= t2 < lists@[i2]@.len() && touches(#[trigger] lists@[i2]@[t2], y.0)) || (exists|t2: int|
                        0 <= t2 < t && touches(#[trigger] lists@[i as int]@[t2], y.0)),
                (forall|a: int, b: int| 0 <= a < b < old(found)@.len() ==> old(found)@[a] != old(found)@[b])
                    ==> (forall|a: int, b: int| 0 <= a < b < found@.len() ==> found@[a] != found@[b]),
            decreases lists@[i as int]@.len() - t,
        {
            if let Link::Connection(c) = lists[i][t] {
                add_neighbor(found, c.0);
            }
            proof {
                assert forall|y: NodeRef|
                    found@.contains(y) <==> old(found)@.contains(y) || (exists|i2: int, t2: int|
                        0 <= i2 < i && 0 <= t2 < lists@[i2]@.len() && touches(#[trigger] lists@[i2]@[t2], y.0)) || (exists|t2: int|
                        0 <= t2 < t + 1 && touches(#[trigger] lists@[i as int]@[t2], y.0)) by {
                    if touches(lists@[i as int]@[t as int], y.0) {
                        assert(touches(lists@[i as int]@[t as int], y.0));
                    }
                }
            }
            t = t + 1;
        }
        proof {
            assert forall|y: NodeRef|
                found@.contains(y) <==> old(found)@.contains(y) || exists|i2: int, t2: int|
                    0 <= i2 < i + 1 && 0 <= t2 < lists@[i2]@.len() && touches(#[trigger] lists@[i2]@[t2], y.0) by {
                if exists|t2: int|
                    0 <= t2 < lists@[i as int]@.len() && touches(#[trigger] lists@[i as int]@[t2], y.0) {
                    let t2 = choose|t2: int|
                        0 <= t2 < lists@[i as int]@.len() && touches(#[trigger] lists@[i as int]@[t2], y.0);
                    assert(touches(lists@[i as int]@[t2], y.0));
                }
            }
        }
        i = i + 1;
    }
}

} // verus!

verus! {

impl Node {
    /// The nodes that some pin of this node links to, each once.
    pub fn get_neighbors(&self) -> (r: Vec<NodeRef>)
        ensures
            forall|y: NodeRef| r@.contains(y) <==> is_neighbor(self@, y.0),
            forall|a: int, b: int| 0 <= a < b < r@.len() ==> r@[a] != r@[b],
    {
        let mut found: Vec<NodeRef> = Vec::new();
        add_list_neighbors(&mut found, &self.controls_in);
        add_list_neighbors(&mut found, &self.controls_out);
        add_list_neighbors(&mut found, &self.values_out);
        let mut i: usize = 0;
        while i < self.values_in.len()
            invariant
                i <= self.values_in@.len(),
                forall|a: int, b: int| 0 <= a < b < found@.len() ==> found@[a] != found@[b],
                forall|y: NodeRef|
                    found@.contains(y) <==> (exists|i2: int, t: int|
                        0 <= i2 < self.controls_in@.len() && 0 <= t < self.controls_in@[i2]@.len()
                            && touches(#[trigger] self.controls_in@[i2]@[t], y.0)) || (exists|
                        i2: int,
                        t: int,
                    |
                        0 <= i2 < self.controls_out@.len() && 0 <= t < self.controls_out@[i2]@.len()
                            && touches(#[trigger] self.controls_out@[i2]@[t], y.0)) || (exists|
                        i2: int,
                        t: int,
                    |
                        0 <= i2 < self.values_out@.len() && 0 <= t < self.values_out@[i2]@.len()
                            && touches(#[trigger] self.values_out@[i2]@[t], y.0)) || (exists|i2: int|
                        0 <= i2 < i && (#[trigger] self.values_in@[i2].link matches Some(l)
                            && touches(l, y.0))),
            decreases self.values_in@.len() - i,
        {
            if let Some(Link::Connection(c)) = self.values_in[i].link {
                add_neighbor(&mut found, c.0);
            }
            proof {
                assert forall|y: NodeRef|
                    found@.contains(y) <==> (exists|i2: int, t: int|
                        0 <= i2 < self.controls_in@.len() && 0 <= t < self.controls_in@[i2]@.len()
                            && touches(#[trigger] self.controls_in@[i2]@[t], y.0)) || (exists|
                        i2: int,
                        t: int,
                    |
                        0 <= i2 < self.controls_out@.len() && 0 <= t < self.controls_out@[i2]@.len()
                            && touches(#[trigger] self.controls_out@[i2]@[t], y.0)) || (exists|
                        i2: int,
                        t: int,
                    |
                        0 <= i2 < self.values_out@.len() && 0 <= t < self.values_out@[i2]@.len()
                            && touches(#[trigger] self.values_out@[i2]@[t], y.0)) || (exists|i2: int|
                        0 <= i2 < i + 1 && (#[trigger] self.values_in@[i2].link matches Some(l)
                            && touches(l, y.0))) by {
                    if self.values_in@[i as int].link matches Some(l) && touches(l, y.0) {
                        assert(self.values_in@[i as int].link matches Some(l) && touches(l, y.0));
                    }
                }
            }
            i = i + 1;
        }
        proof {
            let v = self@;
            assert forall|y: NodeRef| found@.contains(y) <==> is_neighbor(v, y.0) by {
                assert forall|i2: int| 0 <= i2 < self.controls_in@.len() implies #[trigger] v.controls_in[i2]
                    == self.controls_in@[i2]@ by {}
                assert forall|i2: int| 0 <= i2 < self.controls_out@.len() implies #[trigger] v.controls_out[i2]
                    == self.controls_out@[i2]@ by {}
                assert forall|i2: int| 0 <= i2 < self.values_out@.len() implies #[trigger] v.values_out[i2]
                    == self.values_out@[i2]@ by {}
                if exists|i2: int, t: int|
                    0 <= i2 < self.controls_in@.len() && 0 <= t < self.controls_in@[i2]@.len()
                        && touches(#[trigger] self.controls_in@[i2]@[t], y.0) {
                    let (i2, t) = choose|i2: int, t: int|
                        0 <= i2 < self.controls_in@.len() && 0 <= t < self.controls_in@[i2]@.len()
                            && touches(#[trigger] self.controls_in@[i2]@[t], y.0);
                    assert(touches(v.controls_in[i2][t], y.0));
                }
                if exists|i2: int, t: int|
                    0 <= i2 < v.controls_in.len() && 0 <= t < v.controls_in[i2].len() && touches(
                        #[trigger] v.controls_in[i2][t],
                        y.0,
                    ) {
                    let (i2, t) = choose|i2: int, t: int|
                        0 <= i2 < v.controls_in.len() && 0 <= t < v.controls_in[i2].len() && touches(
                            #[trigger] v.controls_in[i2][t],
                            y.0,
                        );
                    assert(touches(self.controls_in@[i2]@[t], y.0));
                }
                if exists|i2: int, t: int|
                    0 <= i2 < self.controls_out@.len() && 0 <= t < self.controls_out@[i2]@.len()
                        && touches(#[trigger] self.controls_out@[i2]@[t], y.0) {
                    let (i2, t) = choose|i2: int, t: int|
                        0 <= i2 < self.controls_out@.len() && 0 <= t < self.controls_out@[i2]@.len()
                            && touches(#[trigger] self.controls_out@[i2]@[t], y.0);
                    assert(touches(v.controls_out[i2][t], y.0));
                }
                if exists|i2: int, t: int|
                    0 <= i2 < v.controls_out.len() && 0 <= t < v.controls_out[i2].len() && touches(
                        #[trigger] v.controls_out[i2][t],
                        y.0,
                    ) {
                    let (i2, t) = choose|i2: int, t: int|
                        0 <= i2 < v.controls_out.len() && 0 <= t < v.controls_out[i2].len() && touches(
                            #[trigger] v.controls_out[i2][t],
                            y.0,
                        );
                    assert(touches(self.controls_out@[i2]@[t], y.0));
                }
                if exists|i2: int, t: int|
                    0 <= i2 < self.values_out@.len() && 0 <= t < self.values_out@[i2]@.len()
                        && touches(#[trigger] self.values_out@[i2]@[t], y.0) {
                    let (i2, t) = choose|i2: int, t: int|
                        0 <= i2 < self.values_out@.len() && 0 <= t < self.values_out@[i2]@.len()
                            && touches(#[trigger] self.values_out@[i2]@[t], y.0);
                    assert(touches(v.values_out[i2][t], y.0));
                }
                if exists|i2: int, t: int|
                    0 <= i2 < v.values_out.len() && 0 <= t < v.values_out[i2].len() && touches(
                        #[trigger] v.values_out[i2][t],
                        y.0,
                    ) {
                    let (i2, t) = choose|i2: int, t: int|
                        0 <= i2 < v.values_out.len() && 0 <= t < v.values_out[i2].len() && touches(
                            #[trigger] v.values_out[i2][t],
                            y.0,
                        );
                    assert(touches(self.values_out@[i2]@[t], y.0));
                }
            }
        }
        found
    }
}

} // verus!

verus! {

// ---------------------------------------------------------------------------
// Laws of node graphs.
// ---------------------------------------------------------------------------

/// Nothing in `n` links to node `key`.
pub open spec fn untouched(n: NodeView, key: usize) -> bool {
    &&& forall|i: int|
        0 <= i < n.values_in.len() ==> !(#[trigger] n.values_in[i].link matches Some(l) && touches(
            l,
            key,
        ))
    &&& forall|j: int, t: int|
        0 <= j < n.values_out.len() && 0 <= t < n.values_out[j].len() ==> !touches(
            #[trigger] n.values_out[j][t],
            key,
        )
    &&& forall|j: int, t: int|
        0 <= j < n.controls_out.len() && 0 <= t < n.controls_out[j].len() ==> !touches(
            #[trigger] n.controls_out[j][t],
            key,
        )
    &&& forall|j: int, t: int|
        0 <= j < n.controls_in.len() && 0 <= t < n.controls_in[j].len() ==> !touches(
            #[trigger] n.controls_in[j][t],
            key,
        )
}

/// In a well-formed graph, no node links to a key that holds no node.
pub proof fn lemma_no_dangling_links(m: Map<usize, NodeView>, key: usize)
    requires
        wf(m),
        !m.dom().contains(key),
    ensures
        forall|k: usize| #[trigger] m.dom().contains(k) ==> untouched(m[k], key),
{
    assert forall|k: usize| #[trigger] m.dom().contains(k) implies untouched(m[k], key) by {
        let n = m[k];
        assert forall|i: int| 0 <= i < n.values_in.len() implies !(#[trigger] n.values_in[i].link matches Some(
            l,
        ) && touches(l, key)) by {
            assert(value_in_ok(m, k, i));
        }
        assert forall|j: int, t: int|
            0 <= j < n.values_out.len() && 0 <= t < n.values_out[j].len() implies !touches(
            #[trigger] n.values_out[j][t],
            key,
        ) by {
            assert(value_out_ok(m, k, j, t));
        }
        assert forall|j: int, t: int|
            0 <= j < n.controls_out.len() && 0 <= t < n.controls_out[j].len() implies !touches(
            #[trigger] n.controls_out[j][t],
            key,
        ) by {
            assert(control_out_ok(m, k, j, t));
        }
        assert forall|j: int, t: int|
            0 <= j < n.controls_in.len() && 0 <= t < n.controls_in[j].len() implies !touches(
            #[trigger] n.controls_in[j][t],
            key,
        ) by {
            assert(control_in_ok(m, k, j, t));
        }
    }
}

/// After a node is removed, no node of the graph links to it any more.
pub proof fn lemma_removed_node_unlinked(m: Map<usize, NodeView>, key: usize)
    requires
        wf(m),
        m.dom().contains(key),
    ensures
        forall|k: usize| #[trigger] remove_spec(m, key).dom().contains(k) ==> untouched(
            remove_spec(m, key)[k],
            key,
        ),
{
    lemma_remove_wf(m, key);
    lemma_no_dangling_links(remove_spec(m, key), key);
}

/// Stripping a node of the links to a key that nothing links to changes
/// nothing.
proof fn lemma_strip_untouched_node(n: NodeView, key: usize)
    requires
        untouched(n, key),
    ensures
        strip_node(n, key) == n,
{
    let s = strip_node(n, key);
    assert forall|j: int| 0 <= j < n.controls_in.len() implies #[trigger] s.controls_in[j] == n.controls_in[j] by {
        lemma_strip_untouched(n.controls_in[j], key);
    }
    assert forall|j: int| 0 <= j < n.controls_out.len() implies #[trigger] s.controls_out[j] == n.controls_out[j] by {
        lemma_strip_untouched(n.controls_out[j], key);
    }
    assert forall|j: int| 0 <= j < n.values_out.len() implies #[trigger] s.values_out[j] == n.values_out[j] by {
        lemma_strip_untouched(n.values_out[j], key);
    }
    assert forall|i: int| 0 <= i < n.values_in.len() implies #[trigger] s.values_in[i] == n.values_in[i] by {
        assert(!(n.values_in[i].link matches Some(l) && touches(l, key)));
    }
    assert(s.controls_in =~= n.controls_in);
    assert(s.controls_out =~= n.controls_out);
    assert(s.values_out =~= n.values_out);
    assert(s.values_in =~= n.values_in);
}

/// Removing a node right after inserting it, before anything links to it,
/// gives the graph back.
pub proof fn lemma_insert_then_remove(m: Map<usize, NodeView>, key: usize, n: NodeView)
    requires
        wf(m),
        !m.dom().contains(key),
    ensures
        remove_spec(m.insert(key, n), key) == m,
{
    lemma_no_dangling_links(m, key);
    let r = remove_spec(m.insert(key, n), key);
    assert(m.insert(key, n).remove(key) =~= m);
    assert forall|k: usize| #[trigger] m.dom().contains(k) implies r[k] == m[k] by {
        lemma_strip_untouched_node(m[k], key);
    }
    assert(r =~= m);
}

} // verus!

verus! {

// ---------------------------------------------------------------------------
// Renumbering the pins of the interface.
// ---------------------------------------------------------------------------

/// Link `l` with the pin of the interface that it names renumbered by `f`
/// (pin `e` becomes pin `f[e]`); a link between nodes, or to a pin that
/// `f` does not cover, stays.
pub open spec fn renumbered(l: Link, f: Seq<usize>) -> Link {
    match l {
        Link::Export(e) => if e < f.len() {
            Link::Export(f[e as int])
        } else {
            l
        },
        Link::Connection(_) => l,
    }
}

/// Input `v` with its link renumbered by `f`.
pub open spec fn renumbered_input(v: ValueIn, f: Seq<usize>) -> ValueIn {
    ValueIn {
        default: v.default,
        link: match v.link {
            Some(l) => Some(renumbered(l, f)),
            None => None,
        },
    }
}

/// Node `n` with the interface inputs that its value inputs link to
/// renumbered by `ins`, and the interface outputs that its value outputs
/// link to renumbered by `outs`.
pub open spec fn renumber_node(n: NodeView, ins: Seq<usize>, outs: Seq<usize>) -> NodeView {
    NodeView {
        values_in: n.values_in.map_values(|v: ValueIn| renumbered_input(v, ins)),
        values_out: n.values_out.map_values(|s: Seq<Link>| s.map_values(|l: Link| renumbered(l, outs))),
        ..n
    }
}

/// The graph with every node renumbered; see `renumber_node`.
pub open spec fn renumber_spec(m: Map<usize, NodeView>, ins: Seq<usize>, outs: Seq<usize>) -> Map<
    usize,
    NodeView,
> {
    m.map_values(|n: NodeView| renumber_node(n, ins, outs))
}

/// Renumbering the interface keeps a graph well formed: links between
/// nodes stay as they were.
proof fn lemma_renumber_wf(m: Map<usize, NodeView>, ins: Seq<usize>, outs: Seq<usize>)
    requires
        wf(m),
    ensures
        wf(renumber_spec(m, ins, outs)),
{
    let m2 = renumber_spec(m, ins, outs);
    assert(m2.dom() =~= m.dom());
    assert forall|k: usize| #[trigger] m2.dom().contains(k) implies shape_ok(m2[k]) by {
        assert(shape_ok(m[k]));
    }
    assert forall|k: usize, i: int|
        m2.dom().contains(k) && 0 <= i < m2[k].values_in.len() implies #[trigger] value_in_ok(
        m2,
        k,
        i,
    ) by {
        assert(value_in_ok(m, k, i));
        if let Some(Link::Connection(c)) = m[k].values_in[i].link {
            let s = m[c.0.0].values_out[c.1 as int];
            let t = choose|t: int| 0 <= t < s.len() && s[t] == conn(k, i as usize);
            assert(m2[c.0.0].values_out[c.1 as int][t] == conn(k, i as usize));
        }
    }
    assert forall|k: usize, j: int, t: int|
        m2.dom().contains(k) && 0 <= j < m2[k].values_out.len() && 0 <= t
            < m2[k].values_out[j].len() implies #[trigger] value_out_ok(m2, k, j, t) by {
        assert(value_out_ok(m, k, j, t));
    }
    assert forall|k: usize, j: int, t: int|
        m2.dom().contains(k) && 0 <= j < m2[k].controls_out.len() && 0 <= t
            < m2[k].controls_out[j].len() implies #[trigger] control_out_ok(m2, k, j, t) by {
        assert(control_out_ok(m, k, j, t));
    }
    assert forall|k: usize, i: int, t: int|
        m2.dom().contains(k) && 0 <= i < m2[k].controls_in.len() && 0 <= t
            < m2[k].controls_in[i].len() implies #[trigger] control_in_ok(m2, k, i, t) by {
        assert(control_in_ok(m, k, i, t));
    }
}

fn renumber_link(l: Link, f: &Vec<usize>) -> (r: Link)
    ensures
        r == renumbered(l, f@),
{
    match l {
        Link::Export(e) => if e < f.len() {
            Link::Export(f[e])
        } else {
            l
        },
        Link::Connection(_) => l,
    }
}

fn renumber_list(list: &Vec<Link>, f: &Vec<usize>) -> (r: Vec<Link>)
    ensures
        r@ == list@.map_values(|l: Link| renumbered(l, f@)),
{
    let mut r: Vec<Link> = Vec::new();
    let mut i: usize = 0;
    while i < list.len()
        invariant
            i <= list@.len(),
            r@ == list@.subrange(0, i as int).map_values(|l: Link| renumbered(l, f@)),
        decreases list@.len() - i,
    {
        r.push(renumber_link(list[i], f));
        i = i + 1;
        assert(r@ =~= list@.subrange(0, i as int).map_values(|l: Link| renumbered(l, f@)));
    }
    assert(list@.subrange(0, list@.len() as int) =~= list@);
    r
}

/// Node `n` renumbered; see `renumber_node`.
fn renumber_node_exec(n: &mut Node, ins: &Vec<usize>, outs: &Vec<usize>)
    ensures
        final(n)@ == renumber_node(old(n)@, ins@, outs@),
{
    let ghost o = n@;
    let mut i: usize = 0;
    while i < n.values_in.len()
        invariant
            i <= n.values_in@.len(),
            n.values_in@.len() == o.values_in.len(),
            n.kind == o.kind,
            lists_view(n.controls_in@) == o.controls_in,
            lists_view(n.controls_out@) == o.controls_out,
            lists_view(n.values_out@) == o.values_out,
            forall|p: int|
                0 <= p < n.values_in@.len() ==> #[trigger] n.values_in@[p] == (if p < i {
                    renumbered_input(o.values_in[p], ins@)
                } else {
                    o.values_in[p]
                }),
        decreases n.values_in@.len() - i,
    {
        let l = match n.values_in[i].link {
            Some(l) => Some(renumber_link(l, ins)),
            None => None,
        };
        set_input_link(&mut n.values_in, i, l);
        i = i + 1;
    }
    let mut j: usize = 0;
    while j < n.values_out.len()
        invariant
            j <= n.values_out@.len(),
            n.values_out@.len() == o.values_out.len(),
            n.kind == o.kind,
            lists_view(n.controls_in@) == o.controls_in,
            lists_view(n.controls_out@) == o.controls_out,
            n.values_in@ == o.values_in.map_values(|v: ValueIn| renumbered_input(v, ins@)),
            forall|p: int|
                0 <= p < n.values_out@.len() ==> #[trigger] n.values_out@[p]@ == (if p < j {
                    o.values_out[p].map_values(|l: Link| renumbered(l, outs@))
                } else {
                    o.values_out[p]
                }),
        decreases n.values_out@.len() - j,
    {
        let list = renumber_list(&n.values_out[j], outs);
        let ghost before = n.values_out@;
        set_list(&mut n.values_out, j, list);
        assert(lists_view(n.values_out@).len() == n.values_out@.len());
        assert(lists_view(before).len() == before.len());
        assert(n.values_out@.len() == before.len());
        assert forall|p: int| 0 <= p < n.values_out@.len() implies #[trigger] n.values_out@[p]@ == (if p
            < j + 1 {
            o.values_out[p].map_values(|l: Link| renumbered(l, outs@))
        } else {
            o.values_out[p]
        }) by {
            assert(lists_view(n.values_out@)[p] == n.values_out@[p]@);
            assert(lists_view(before)[p] == before[p]@);
        }
        j = j + 1;
    }
    assert(n.values_in@ =~= o.values_in.map_values(|v: ValueIn| renumbered_input(v, ins@)));
    assert(lists_view(n.values_out@) =~= o.values_out.map_values(
        |s: Seq<Link>| s.map_values(|l: Link| renumbered(l, outs@)),
    ));
    assert(n@ =~= renumber_node(o, ins@, outs@));
}

impl NodeGraph {
    /// Renumbers the pins of the interface that the graph's nodes link to:
    /// a value input linked to interface input `e` is linked to input
    /// `ins[e]` instead, and a value output linked to interface output `e`
    /// to output `outs[e]`.
    pub fn renumber_exports(&mut self, ins: &Vec<usize>, outs: &Vec<usize>)
        ensures
            final(self)@ == renumber_spec(old(self)@, ins@, outs@),
            wf(old(self)@) ==> wf(final(self)@),
            final(self).class == old(self).class,
            final(self).name == old(self).name,
            final(self).next_key() == old(self).next_key(),
            final(self).keys_dense() == old(self).keys_dense(),
    {
        let ghost m = self@;
        let ghost m1 = renumber_spec(m, ins@, outs@);
        let keys = slab_keys(&self.nodes);
        let mut idx: usize = 0;
        while idx < keys.len()
            invariant
                idx <= keys@.len(),
                m1 == renumber_spec(m, ins@, outs@),
                forall|a: int, b: int| 0 <= a < b < keys@.len() ==> keys@[a] < keys@[b],
                forall|k: usize| m.dom().contains(k) <==> keys@.contains(k),
                self@.dom() == m.dom(),
                forall|k: usize|
                    #[trigger] m.dom().contains(k) ==> self@[k] == (if keys@.subrange(
                        0,
                        idx as int,
                    ).contains(k) {
                        m1[k]
                    } else {
                        m[k]
                    }),
                self.class == old(self).class,
                self.name == old(self).name,
                self.next_key() == old(self).next_key(),
                self.keys_dense() == old(self).keys_dense(),
            decreases keys@.len() - idx,
        {
            let k = keys[idx];
            assert(keys@.contains(k));
            let mut n = self.take_node(k);
            assert(!keys@.subrange(0, idx as int).contains(k)) by {
                if keys@.subrange(0, idx as int).contains(k) {
                    let a = choose|a: int| 0 <= a < idx && keys@.subrange(0, idx as int)[a] == k;
                    assert(keys@[a] == keys@[idx as int]);
                }
            }
            renumber_node_exec(&mut n, ins, outs);
            self.put_node(k, n);
            let ghost upto = keys@.subrange(0, idx + 1);
            let ghost below = keys@.subrange(0, idx as int);
            assert(upto =~= below.push(k));
            assert forall|x: usize| #[trigger] m.dom().contains(x) implies self@[x] == (if upto.contains(
                x,
            ) {
                m1[x]
            } else {
                m[x]
            }) by {
                if x != k {
                    assert(upto.contains(x) == below.contains(x)) by {
                        if upto.contains(x) {
                            let a = choose|a: int| 0 <= a < upto.len() && upto[a] == x;
                            assert(below[a] == x);
                        }
                        if below.contains(x) {
                            let a = choose|a: int| 0 <= a < below.len() && below[a] == x;
                            assert(upto[a] == x);
                        }
                    }
                } else {
                    assert(upto[idx as int] == k);
                }
            }
            idx = idx + 1;
        }
        assert forall|x: usize| #[trigger] m.dom().contains(x) implies self@[x] == m1[x] by {
            assert(keys@.subrange(0, keys@.len() as int) =~= keys@);
        }
        assert(self@ =~= m1);
        proof {
            if wf(m) {
                lemma_renumber_wf(m, ins@, outs@);
            }
        }
    }
}

} // verus!
