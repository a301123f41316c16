//! Composite graphs: node graphs with an interface of their own, which the
//! editor places as one node. The links of the inner nodes to the
//! interface become the port mapping of the graph and the pins of its
//! declaration.

use vstd::prelude::*;

use crate::bundle::{allocated, bundle_wf, counters, AssetBundle, AssetRef};
use crate::decl::{decl_asset_ok, decl_kind_ok, pin_total, DeclPin, NodeDecl, PinTable};
use crate::encode::{
    graph_asset_ok, graph_data, graph_encodable, keys_in_order, lemma_keys_in_order, node_number,
};
use crate::graph::{Connection, Link, Node, NodeGraph, NodeKind, NodeRef, NodeView, ValueIn, wf};
use crate::ids::{AssetKind, Category, Identifier};
use crate::message::{
    ImplCategory, InterfaceImplementation, InterfaceMapping, PinKind, PinSignature, TemplateRoot,
    TemplateSub,
};
use crate::value::{same_value, AnyValue};

verus! {

/// A node graph with an interface: a description, and the names of the
/// interface's pins by role.
pub struct CompositeNodeGraph {
    pub graph: NodeGraph,
    pub description: String,
    pub pins: PinTable<String>,
}

/// What the users of a registered composite graph need: the identifier
/// of the graph and the kind of the nodes that stand for it.
pub struct RefData {
    pub id: Identifier,
    pub node: NodeKind,
}

impl CompositeNodeGraph {
    /// The graph with an empty interface and no description.
    pub fn new(graph: NodeGraph) -> (r: Self)
        ensures
            r.graph == graph,
            r.description@.len() == 0,
            r.pins.in_control@.len() == 0,
            r.pins.out_control@.len() == 0,
            r.pins.in_value@.len() == 0,
            r.pins.out_value@.len() == 0,
    {
        Self {
            graph,
            description: String::new(),
            pins: PinTable {
                in_control: Vec::new(),
                out_control: Vec::new(),
                in_value: Vec::new(),
                out_value: Vec::new(),
            },
        }
    }
}

// ---------------------------------------------------------------------------
// Links to the interface.
// ---------------------------------------------------------------------------

/// The links among `links` to the interface, as pairs of the interface pin
/// and pin `j` of node `k`.
pub open spec fn link_exports(links: Seq<Link>, k: usize, j: usize) -> Seq<(usize, Connection)>
    decreases links.len(),
{
    if links.len() == 0 {
        Seq::empty()
    } else {
        let rest = link_exports(links.drop_last(), k, j);
        match links.last() {
            Link::Export(o) => rest.push((o, Connection(NodeRef(k), j))),
            Link::Connection(_) => rest,
        }
    }
}

/// The links to the interface of the first `upto` pins of node `k`, whose
/// pins have the links `lists`.
pub open spec fn lists_exports(lists: Seq<Seq<Link>>, k: usize, upto: int) -> Seq<(usize, Connection)>
    decreases upto,
{
    if upto <= 0 {
        Seq::empty()
    } else {
        lists_exports(lists, k, upto - 1) + link_exports(lists[upto - 1], k, (upto - 1) as usize)
    }
}

/// The links of an input: its one link, if it has one.
pub open spec fn input_links(v: ValueIn) -> Seq<Link> {
    match v.link {
        Some(l) => seq![l],
        None => Seq::empty(),
    }
}

/// The links to the interface of the first `upto` value inputs of node `k`.
pub open spec fn inputs_exports(ins: Seq<ValueIn>, k: usize, upto: int) -> Seq<(usize, Connection)>
    decreases upto,
{
    if upto <= 0 {
        Seq::empty()
    } else {
        inputs_exports(ins, k, upto - 1) + link_exports(input_links(ins[upto - 1]), k, (upto - 1) as usize)
    }
}

/// The links to the interface of the pins of role `role` of node `k`.
pub open spec fn node_exports(n: NodeView, k: usize, role: PinKind) -> Seq<(usize, Connection)> {
    match role {
        PinKind::InControl => lists_exports(n.controls_in, k, n.controls_in.len() as int),
        PinKind::OutControl => lists_exports(n.controls_out, k, n.controls_out.len() as int),
        PinKind::InValue => inputs_exports(n.values_in, k, n.values_in.len() as int),
        PinKind::OutValue => lists_exports(n.values_out, k, n.values_out.len() as int),
        _ => Seq::empty(),
    }
}

/// The links to the interface of the pins of role `role` of nodes `ks`,
/// node after node.
pub open spec fn graph_exports(m: Map<usize, NodeView>, ks: Seq<usize>, role: PinKind) -> Seq<
    (usize, Connection),
>
    decreases ks.len(),
{
    if ks.len() == 0 {
        Seq::empty()
    } else {
        graph_exports(m, ks.drop_last(), role) + node_exports(m[ks.last()], ks.last(), role)
    }
}

/// The inner pins linked to interface pin `o`, in order.
pub open spec fn exports_to(ev: Seq<(usize, Connection)>, o: usize) -> Seq<Connection>
    decreases ev.len(),
{
    if ev.len() == 0 {
        Seq::empty()
    } else {
        let rest = exports_to(ev.drop_last(), o);
        if ev.last().0 == o {
            rest.push(ev.last().1)
        } else {
            rest
        }
    }
}

/// The number of pins of role `role` of a node.
pub open spec fn role_len(n: NodeView, role: PinKind) -> int {
    match role {
        PinKind::InControl => n.controls_in.len() as int,
        PinKind::OutControl => n.controls_out.len() as int,
        PinKind::InValue => n.values_in.len() as int,
        PinKind::OutValue => n.values_out.len() as int,
        _ => 0,
    }
}

/// The mapping of interface pin `id` of role `kind` to inner pin `c`.
pub open spec fn mapping_of(kind: PinKind, id: int, c: Connection) -> InterfaceMapping {
    InterfaceMapping {
        external_port: Some(PinSignature { kind, index: id as i32 }),
        internal_target_node_handle: node_number(c.0.0),
        internal_port_shell: Some(PinSignature { kind, index: c.1 as i32 }),
        internal_port_kernel: Some(PinSignature { kind, index: c.1 as i32 }),
    }
}

/// The mappings of the first `upto` interface pins of role `kind`, pin
/// after pin, each in the order of its inner pins.
pub open spec fn role_mappings(kind: PinKind, ev: Seq<(usize, Connection)>, upto: int) -> Seq<
    InterfaceMapping,
>
    decreases upto,
{
    if upto <= 0 {
        Seq::empty()
    } else {
        role_mappings(kind, ev, upto - 1) + exports_to(ev, (upto - 1) as usize).map_values(
            |c: Connection| mapping_of(kind, upto - 1, c),
        )
    }
}

/// The type that an interface pin takes from the inner pin `c` linked to
/// it: an input's type, if it has one; an output's type.
pub open spec fn kind_of_inner(m: Map<usize, NodeView>, role: PinKind, c: Connection) -> Option<
    AnyValue,
> {
    match role {
        PinKind::InValue => m[c.0.0].kind.values_in_types@[c.1 as int],
        PinKind::OutValue => Some(m[c.0.0].kind.values_out_types@[c.1 as int]),
        _ => None,
    }
}

/// The type of interface pin `o`: the type of the last inner pin linked to
/// it, none if there is none.
pub open spec fn pin_kind_of(m: Map<usize, NodeView>, role: PinKind, ev: Seq<(usize, Connection)>, o: usize) -> Option<AnyValue> {
    let s = exports_to(ev, o);
    if s.len() > 0 {
        kind_of_inner(m, role, s.last())
    } else {
        None
    }
}

/// Both absent, or both present with the same content.
pub open spec fn opt_same(a: Option<AnyValue>, b: Option<AnyValue>) -> bool {
    match (a, b) {
        (None, None) => true,
        (Some(x), Some(y)) => same_value(x, y),
        _ => false,
    }
}

// ---------------------------------------------------------------------------
// Gathering the links to the interface.
// ---------------------------------------------------------------------------

/// Every event names an interface pin below `count` and a pin that node
/// of `m` has.
pub open spec fn events_valid(ev: Seq<(usize, Connection)>, m: Map<usize, NodeView>, role: PinKind, count: int) -> bool {
    forall|i: int|
        0 <= i < ev.len() ==> {
            let e = #[trigger] ev[i];
            &&& e.0 < count
            &&& m.dom().contains(e.1.0.0)
            &&& e.1.1 < role_len(m[e.1.0.0], role)
        }
}

fn exports_of_links(links: &Vec<Link>, k: usize, j: usize) -> (r: Vec<(usize, Connection)>)
    ensures
        r@ == link_exports(links@, k, j),
{
    let mut r: Vec<(usize, Connection)> = Vec::new();
    let mut t: usize = 0;
    while t < links.len()
        invariant
            t <= links@.len(),
            r@ == link_exports(links@.subrange(0, t as int), k, j),
        decreases links@.len() - t,
    {
        assert(links@.subrange(0, t + 1).drop_last() =~= links@.subrange(0, t as int));
        match links[t] {
            Link::Export(o) => r.push((o, Connection(NodeRef(k), j))),
            Link::Connection(_) => {},
        }
        t = t + 1;
    }
    assert(links@.subrange(0, links@.len() as int) =~= links@);
    r
}

proof fn lemma_link_exports_shape(links: Seq<Link>, k: usize, j: usize)
    ensures
        forall|i: int|
            0 <= i < link_exports(links, k, j).len() ==> (#[trigger] link_exports(links, k, j)[i]).1
                == Connection(NodeRef(k), j),
    decreases links.len(),
{
    if links.len() > 0 {
        lemma_link_exports_shape(links.drop_last(), k, j);
        let rest = link_exports(links.drop_last(), k, j);
        let all = link_exports(links, k, j);
        assert forall|i: int| 0 <= i < all.len() implies (#[trigger] all[i]).1 == Connection(NodeRef(k), j) by {
            if i < rest.len() {
                assert(all[i] == rest[i]);
            }
        }
    }
}

fn exports_of_lists(lists: &Vec<Vec<Link>>, k: usize) -> (r: Vec<(usize, Connection)>)
    ensures
        r@ == lists_exports(crate::graph::lists_view(lists@), k, lists@.len() as int),
        forall|i: int|
            0 <= i < r@.len() ==> (#[trigger] r@[i]).1.0.0 == k && r@[i].1.1 < lists@.len(),
{
    let ghost v = crate::graph::lists_view(lists@);
    let mut r: Vec<(usize, Connection)> = Vec::new();
    let mut j: usize = 0;
    while j < lists.len()
        invariant
            j <= lists@.len(),
            v == crate::graph::lists_view(lists@),
            r@ == lists_exports(v, k, j as int),
            forall|i: int| 0 <= i < r@.len() ==> (#[trigger] r@[i]).1.0.0 == k && r@[i].1.1 < j,
        decreases lists@.len() - j,
    {
        assert(lists@[j as int]@ == v[j as int]);
        let mut more = exports_of_links(&lists[j], k, j);
        proof {
            lemma_link_exports_shape(v[j as int], k, j);
        }
        let ghost before = r@;
        r.append(&mut more);
        assert forall|i: int| 0 <= i < r@.len() implies (#[trigger] r@[i]).1.0.0 == k && r@[i].1.1 < j + 1 by {
            if i >= before.len() {
                assert(r@[i] == link_exports(v[j as int], k, j)[i - before.len()]);
            } else {
                assert(r@[i] == before[i]);
            }
        }
        j = j + 1;
    }
    r
}

fn exports_of_inputs(ins: &Vec<ValueIn>, k: usize) -> (r: Vec<(usize, Connection)>)
    ensures
        r@ == inputs_exports(ins@, k, ins@.len() as int),
        forall|i: int|
            0 <= i < r@.len() ==> (#[trigger] r@[i]).1.0.0 == k && r@[i].1.1 < ins@.len(),
{
    let mut r: Vec<(usize, Connection)> = Vec::new();
    let mut j: usize = 0;
    while j < ins.len()
        invariant
            j <= ins@.len(),
            r@ == inputs_exports(ins@, k, j as int),
            forall|i: int| 0 <= i < r@.len() ==> (#[trigger] r@[i]).1.0.0 == k && r@[i].1.1 < j,
        decreases ins@.len() - j,
    {
        let mut links: Vec<Link> = Vec::new();
        match ins[j].link {
            Some(l) => links.push(l),
            None => {},
        }
        assert(links@ =~= input_links(ins@[j as int]));
        let mut more = exports_of_links(&links, k, j);
        proof {
            lemma_link_exports_shape(links@, k, j);
        }
        let ghost before = r@;
        r.append(&mut more);
        assert forall|i: int| 0 <= i < r@.len() implies (#[trigger] r@[i]).1.0.0 == k && r@[i].1.1 < j + 1 by {
            if i >= before.len() {
                assert(r@[i] == link_exports(links@, k, j)[i - before.len()]);
            } else {
                assert(r@[i] == before[i]);
            }
        }
        j = j + 1;
    }
    r
}

fn exports_of_node(n: &Node, k: usize, role: PinKind) -> (r: Vec<(usize, Connection)>)
    ensures
        r@ == node_exports(n@, k, role),
        forall|i: int|
            0 <= i < r@.len() ==> (#[trigger] r@[i]).1.0.0 == k && r@[i].1.1 < role_len(n@, role),
{
    match role {
        PinKind::InControl => exports_of_lists(&n.controls_in, k),
        PinKind::OutControl => exports_of_lists(&n.controls_out, k),
        PinKind::InValue => exports_of_inputs(&n.values_in, k),
        PinKind::OutValue => exports_of_lists(&n.values_out, k),
        _ => Vec::new(),
    }
}

/// The links to the interface of the pins of role `role` of the nodes
/// `keys`, node after node.
fn exports_of_graph(g: &NodeGraph, keys: &Vec<NodeRef>, role: PinKind) -> (r: Vec<(usize, Connection)>)
    requires
        forall|i: int| 0 <= i < keys@.len() ==> g@.dom().contains(#[trigger] keys@[i].0),
    ensures
        r@ == graph_exports(g@, keys@.map_values(|x: NodeRef| x.0), role),
        forall|i: int|
            0 <= i < r@.len() ==> {
                let e = #[trigger] r@[i];
                &&& g@.dom().contains(e.1.0.0)
                &&& e.1.1 < role_len(g@[e.1.0.0], role)
                &&& keys@.map_values(|x: NodeRef| x.0).contains(e.1.0.0)
            },
{
    let ghost ks = keys@.map_values(|x: NodeRef| x.0);
    let mut r: Vec<(usize, Connection)> = Vec::new();
    let mut i: usize = 0;
    while i < keys.len()
        invariant
            i <= keys@.len(),
            ks == keys@.map_values(|x: NodeRef| x.0),
            forall|t: int| 0 <= t < keys@.len() ==> g@.dom().contains(#[trigger] keys@[t].0),
            r@ == graph_exports(g@, ks.subrange(0, i as int), role),
            forall|t: int|
                0 <= t < r@.len() ==> {
                    let e = #[trigger] r@[t];
                    &&& g@.dom().contains(e.1.0.0)
                    &&& e.1.1 < role_len(g@[e.1.0.0], role)
                    &&& ks.contains(e.1.0.0)
                },
        decreases keys@.len() - i,
    {
        let key = keys[i];
        assert(g@.dom().contains(keys@[i as int].0));
        let n = g.get_node(key);
        let mut more = exports_of_node(n, key.0, role);
        assert(ks.subrange(0, i + 1).drop_last() =~= ks.subrange(0, i as int));
        assert(ks.subrange(0, i + 1).last() == key.0);
        assert(ks[i as int] == key.0);
        let ghost before = r@;
        r.append(&mut more);
        assert forall|t: int| 0 <= t < r@.len() implies {
            let e = #[trigger] r@[t];
            &&& g@.dom().contains(e.1.0.0)
            &&& e.1.1 < role_len(g@[e.1.0.0], role)
            &&& ks.contains(e.1.0.0)
        } by {
            if t < before.len() {
                assert(r@[t] == before[t]);
            } else {
                assert(r@[t] == node_exports(g@[key.0], key.0, role)[t - before.len()]);
            }
        }
        i = i + 1;
    }
    assert(ks.subrange(0, ks.len() as int) =~= ks);
    r
}

proof fn lemma_exports_to_valid(ev: Seq<(usize, Connection)>, o: usize, m: Map<usize, NodeView>, role: PinKind)
    requires
        forall|i: int|
            0 <= i < ev.len() ==> {
                let e = #[trigger] ev[i];
                &&& m.dom().contains(e.1.0.0)
                &&& e.1.1 < role_len(m[e.1.0.0], role)
            },
    ensures
        forall|t: int|
            0 <= t < exports_to(ev, o).len() ==> {
                let c = #[trigger] exports_to(ev, o)[t];
                &&& m.dom().contains(c.0.0)
                &&& c.1 < role_len(m[c.0.0], role)
            },
    decreases ev.len(),
{
    if ev.len() > 0 {
        let d = ev.drop_last();
        assert forall|i: int| 0 <= i < d.len() implies {
            let e = #[trigger] d[i];
            &&& m.dom().contains(e.1.0.0)
            &&& e.1.1 < role_len(m[e.1.0.0], role)
        } by {
            assert(d[i] == ev[i]);
        }
        lemma_exports_to_valid(d, o, m, role);
        let rest = exports_to(d, o);
        let all = exports_to(ev, o);
        assert(ev.last() == ev[ev.len() - 1]);
        assert forall|t: int| 0 <= t < all.len() implies {
            let c = #[trigger] all[t];
            &&& m.dom().contains(c.0.0)
            &&& c.1 < role_len(m[c.0.0], role)
        } by {
            if t < rest.len() {
                assert(all[t] == rest[t]);
            }
        }
    }
}

/// The inner pins linked to each of the `count` interface pins.
fn bucket(ev: &Vec<(usize, Connection)>, count: usize) -> (r: Vec<Vec<Connection>>)
    requires
        forall|i: int| 0 <= i < ev@.len() ==> (#[trigger] ev@[i]).0 < count,
    ensures
        r@.len() == count,
        forall|o: int| 0 <= o < count ==> (#[trigger] r@[o])@ == exports_to(ev@, o as usize),
{
    let mut r: Vec<Vec<Connection>> = Vec::new();
    let mut o: usize = 0;
    while o < count
        invariant
            o <= count,
            r@.len() == o,
            forall|p: int| 0 <= p < o ==> (#[trigger] r@[p])@.len() == 0,
        decreases count - o,
    {
        r.push(Vec::new());
        o = o + 1;
    }
    assert forall|p: int| 0 <= p < count implies (#[trigger] r@[p])@ == exports_to(
        ev@.subrange(0, 0),
        p as usize,
    ) by {
        assert(ev@.subrange(0, 0).len() == 0);
    }
    let mut i: usize = 0;
    while i < ev.len()
        invariant
            i <= ev@.len(),
            r@.len() == count,
            forall|t: int| 0 <= t < ev@.len() ==> (#[trigger] ev@[t]).0 < count,
            forall|p: int|
                0 <= p < count ==> (#[trigger] r@[p])@ == exports_to(ev@.subrange(0, i as int), p as usize),
        decreases ev@.len() - i,
    {
        let (o, c) = ev[i];
        assert(ev@[i as int].0 < count);
        let ghost before = r@;
        let ghost sub = ev@.subrange(0, i + 1);
        assert(sub.drop_last() =~= ev@.subrange(0, i as int));
        assert(sub.last() == (o, c));
        r[o].push(c);
        assert forall|p: int| 0 <= p < count implies (#[trigger] r@[p])@ == exports_to(sub, p as usize) by {
            if p != o as int {
                assert(r@[p] == before[p]);
            }
        }
        i = i + 1;
    }
    assert(ev@.subrange(0, ev@.len() as int) =~= ev@);
    r
}

/// The mappings of the interface pins of role `kind`.
fn mappings_of(kind: PinKind, buckets: &Vec<Vec<Connection>>, ev: Ghost<Seq<(usize, Connection)>>) -> (r: Vec<InterfaceMapping>)
    requires
        forall|o: int| 0 <= o < buckets@.len() ==> (#[trigger] buckets@[o])@ == exports_to(ev@, o as usize),
        forall|o: int, t: int|
            0 <= o < buckets@.len() && 0 <= t < buckets@[o]@.len() ==> ((#[trigger] buckets@[o]@[t]).0.0 as i32) < i32::MAX,
    ensures
        r@ == role_mappings(kind, ev@, buckets@.len() as int),
{
    let mut r: Vec<InterfaceMapping> = Vec::new();
    let mut o: usize = 0;
    while o < buckets.len()
        invariant
            o <= buckets@.len(),
            forall|p: int| 0 <= p < buckets@.len() ==> (#[trigger] buckets@[p])@ == exports_to(ev@, p as usize),
            forall|p: int, t: int|
                0 <= p < buckets@.len() && 0 <= t < buckets@[p]@.len() ==> ((#[trigger] buckets@[p]@[t]).0.0 as i32) < i32::MAX,
            r@ == role_mappings(kind, ev@, o as int),
        decreases buckets@.len() - o,
    {
        let links = &buckets[o];
        let ghost start = r@;
        let ghost f = |c: Connection| mapping_of(kind, o as int, c);
        let mut t: usize = 0;
        while t < links.len()
            invariant
                t <= links@.len(),
                links@ == exports_to(ev@, o as usize),
                links == buckets@[o as int],
                forall|x: int| 0 <= x < links@.len() ==> ((#[trigger] links@[x]).0.0 as i32) < i32::MAX,
                o < buckets@.len(),
                f == (|c: Connection| mapping_of(kind, o as int, c)),
                r@ == start + links@.subrange(0, t as int).map_values(f),
            decreases links@.len() - t,
        {
            let c = links[t];
            assert(links@[t as int] == c);
            let external = o as i32;
            let index = c.1 as i32;
            r.push(
                InterfaceMapping {
                    external_port: Some(PinSignature { kind, index: external }),
                    internal_target_node_handle: c.0.encode(),
                    internal_port_shell: Some(PinSignature { kind, index }),
                    internal_port_kernel: Some(PinSignature { kind, index }),
                },
            );
            assert(links@.subrange(0, t + 1).map_values(f) =~= links@.subrange(0, t as int).map_values(
                f,
            ).push(f(c)));
            assert(start + links@.subrange(0, t + 1).map_values(f) =~= (start + links@.subrange(
                0,
                t as int,
            ).map_values(f)).push(f(c)));
            t = t + 1;
        }
        assert(links@.subrange(0, links@.len() as int) =~= links@);
        o = o + 1;
    }
    r
}

/// The type of each interface pin of a value role: that of the last inner
/// pin linked to it.
fn pin_kinds(
    g: &NodeGraph,
    role: PinKind,
    buckets: &Vec<Vec<Connection>>,
    ev: Ghost<Seq<(usize, Connection)>>,
) -> (r: Vec<Option<AnyValue>>)
    requires
        wf(g@),
        role == PinKind::InValue || role == PinKind::OutValue,
        forall|o: int| 0 <= o < buckets@.len() ==> (#[trigger] buckets@[o])@ == exports_to(ev@, o as usize),
        forall|i: int|
            0 <= i < ev@.len() ==> {
                let e = #[trigger] ev@[i];
                &&& g@.dom().contains(e.1.0.0)
                &&& e.1.1 < role_len(g@[e.1.0.0], role)
            },
    ensures
        r@.len() == buckets@.len(),
        forall|o: int| 0 <= o < buckets@.len() ==> opt_same(#[trigger] r@[o], pin_kind_of(g@, role, ev@, o as usize)),
{
    let mut r: Vec<Option<AnyValue>> = Vec::new();
    let mut o: usize = 0;
    while o < buckets.len()
        invariant
            o <= buckets@.len(),
            wf(g@),
            role == PinKind::InValue || role == PinKind::OutValue,
            forall|p: int| 0 <= p < buckets@.len() ==> (#[trigger] buckets@[p])@ == exports_to(ev@, p as usize),
            forall|i: int|
                0 <= i < ev@.len() ==> {
                    let e = #[trigger] ev@[i];
                    &&& g@.dom().contains(e.1.0.0)
                    &&& e.1.1 < role_len(g@[e.1.0.0], role)
                },
            r@.len() == o,
            forall|p: int| 0 <= p < o ==> opt_same(#[trigger] r@[p], pin_kind_of(g@, role, ev@, p as usize)),
        decreases buckets@.len() - o,
    {
        let links = &buckets[o];
        if links.len() > 0 {
            let c = links[links.len() - 1];
            proof {
                lemma_exports_to_valid(ev@, o, g@, role);
                assert(links@[links@.len() - 1] == c);
                assert(exports_to(ev@, o).last() == c);
                assert(g@.dom().contains(c.0.0));
            }
            let n = g.get_node(c.0);
            let kind = match role {
                PinKind::InValue => match &n.kind.values_in_types[c.1] {
                    Some(t) => Some(t.duplicate()),
                    None => None,
                },
                _ => Some(n.kind.values_out_types[c.1].duplicate()),
            };
            r.push(kind);
        } else {
            r.push(None);
        }
        o = o + 1;
    }
    r
}

/// Pins named `names`, without types.
fn plain_pins(names: &Vec<String>) -> (r: Vec<DeclPin>)
    ensures
        plain_decl_pins(r@, names@),
{
    let mut r: Vec<DeclPin> = Vec::new();
    let mut i: usize = 0;
    while i < names.len()
        invariant
            i <= names@.len(),
            r@.len() == i,
            forall|j: int|
                0 <= j < i ==> (#[trigger] r@[j]).name@ == names@[j]@ && r@[j].kind is None
                    && r@[j].meta is None,
        decreases names@.len() - i,
    {
        r.push(DeclPin { name: names[i].clone(), kind: None, meta: None });
        i = i + 1;
    }
    r
}

/// Pins named `names` with the types `kinds`.
fn typed_pins(names: &Vec<String>, kinds: Vec<Option<AnyValue>>) -> (r: Vec<DeclPin>)
    requires
        kinds@.len() == names@.len(),
    ensures
        r@.len() == names@.len(),
        forall|j: int|
            0 <= j < r@.len() ==> (#[trigger] r@[j]).name@ == names@[j]@ && r@[j].kind == kinds@[j]
                && r@[j].meta is None,
{
    let ghost all = kinds@;
    let mut rest = kinds;
    let mut r: Vec<DeclPin> = Vec::new();
    let mut i: usize = 0;
    while i < names.len()
        invariant
            i <= names@.len(),
            all.len() == names@.len(),
            rest@ == all.subrange(i as int, all.len() as int),
            r@.len() == i,
            forall|j: int|
                0 <= j < i ==> (#[trigger] r@[j]).name@ == names@[j]@ && r@[j].kind == all[j]
                    && r@[j].meta is None,
        decreases names@.len() - i,
    {
        let kind = rest.remove(0);
        assert(kind == all[i as int]);
        assert(rest@ =~= all.subrange(i + 1, all.len() as int));
        r.push(DeclPin { name: names[i].clone(), kind, meta: None });
        i = i + 1;
    }
    r
}

// ---------------------------------------------------------------------------
// Registering a composite graph.
// ---------------------------------------------------------------------------

/// `ps` are pins named `names`, without types.
pub open spec fn plain_decl_pins(ps: Seq<DeclPin>, names: Seq<String>) -> bool {
    &&& ps.len() == names.len()
    &&& forall|j: int|
        0 <= j < ps.len() ==> (#[trigger] ps[j]).name@ == names[j]@ && ps[j].kind is None
            && ps[j].meta is None
}

/// `ps` are pins named `names`, each with the type of the last inner pin
/// of role `role` linked to it among `ev`.
pub open spec fn typed_decl_pins(
    ps: Seq<DeclPin>,
    names: Seq<String>,
    m: Map<usize, NodeView>,
    role: PinKind,
    ev: Seq<(usize, Connection)>,
) -> bool {
    &&& ps.len() == names.len()
    &&& forall|j: int|
        0 <= j < ps.len() ==> (#[trigger] ps[j]).name@ == names[j]@ && opt_same(
            ps[j].kind,
            pin_kind_of(m, role, ev, j as usize),
        ) && ps[j].meta is None
}

/// `d` is the declaration of the composite graph `c`, with nodes `m` in
/// the key order `ks`, registered as `id`.
pub open spec fn composite_decl_ok(
    d: NodeDecl,
    c: CompositeNodeGraph,
    m: Map<usize, NodeView>,
    ks: Seq<usize>,
    id: Identifier,
) -> bool {
    &&& d.name@ == c.graph.name@
    &&& d.description@ == c.description@
    &&& plain_decl_pins(d.pins.in_control@, c.pins.in_control@)
    &&& plain_decl_pins(d.pins.out_control@, c.pins.out_control@)
    &&& typed_decl_pins(d.pins.in_value@, c.pins.in_value@, m, PinKind::InValue, graph_exports(m, ks, PinKind::InValue))
    &&& typed_decl_pins(d.pins.out_value@, c.pins.out_value@, m, PinKind::OutValue, graph_exports(m, ks, PinKind::OutValue))
    &&& d.implementation == (InterfaceImplementation { category: ImplCategory::Composite, template: None })
    &&& d.template_root == TemplateRoot::UserComposite
    &&& d.template_sub == TemplateSub::NoSub
    &&& d.references@ == seq![id]
}

/// The port mapping of the composite graph `c` with nodes `m` in the key
/// order `ks`: the pins of each role in turn.
pub open spec fn composite_mappings(c: CompositeNodeGraph, m: Map<usize, NodeView>, ks: Seq<usize>) -> Seq<InterfaceMapping> {
    role_mappings(PinKind::InControl, graph_exports(m, ks, PinKind::InControl), c.pins.in_control@.len() as int)
        + role_mappings(PinKind::OutControl, graph_exports(m, ks, PinKind::OutControl), c.pins.out_control@.len() as int)
        + role_mappings(PinKind::InValue, graph_exports(m, ks, PinKind::InValue), c.pins.in_value@.len() as int)
        + role_mappings(PinKind::OutValue, graph_exports(m, ks, PinKind::OutValue), c.pins.out_value@.len() as int)
}

/// Every link of an inner pin of role `role` to the interface goes to one
/// of its `count` pins.
pub open spec fn exports_in_range(m: Map<usize, NodeView>, role: PinKind, count: int) -> bool {
    forall|k: usize, i: int|
        m.dom().contains(k) && 0 <= i < node_exports(m[k], k, role).len() ==> (#[trigger] node_exports(
            m[k],
            k,
            role,
        )[i]).0 < count
}

/// Some inner value output is linked to value output `o` of the interface.
pub open spec fn fed(m: Map<usize, NodeView>, o: usize) -> bool {
    exists|k: usize, i: int|
        m.dom().contains(k) && 0 <= i < node_exports(m[k], k, PinKind::OutValue).len()
            && (#[trigger] node_exports(m[k], k, PinKind::OutValue)[i]).0 == o
}

/// Every value output of the interface has an inner output linked to it.
pub open spec fn outputs_fed(m: Map<usize, NodeView>, count: int) -> bool {
    forall|o: usize| o < count ==> #[trigger] fed(m, o)
}

proof fn lemma_graph_exports_in_range(m: Map<usize, NodeView>, ks: Seq<usize>, role: PinKind, count: int)
    requires
        exports_in_range(m, role, count),
        forall|i: int| 0 <= i < ks.len() ==> m.dom().contains(#[trigger] ks[i]),
    ensures
        forall|i: int| 0 <= i < graph_exports(m, ks, role).len() ==> (#[trigger] graph_exports(m, ks, role)[i]).0 < count,
    decreases ks.len(),
{
    if ks.len() > 0 {
        let d = ks.drop_last();
        assert forall|i: int| 0 <= i < d.len() implies m.dom().contains(#[trigger] d[i]) by {
            assert(d[i] == ks[i]);
        }
        lemma_graph_exports_in_range(m, d, role, count);
        let a = graph_exports(m, d, role);
        let b = node_exports(m[ks.last()], ks.last(), role);
        assert(m.dom().contains(ks[ks.len() - 1]));
        assert forall|i: int| 0 <= i < (a + b).len() implies (#[trigger] (a + b)[i]).0 < count by {
            if i >= a.len() {
                assert((a + b)[i] == b[i - a.len()]);
            }
        }
    }
}

proof fn lemma_exports_to_nonempty(ev: Seq<(usize, Connection)>, o: usize, i: int)
    requires
        0 <= i < ev.len(),
        ev[i].0 == o,
    ensures
        exports_to(ev, o).len() > 0,
    decreases ev.len(),
{
    if i < ev.len() - 1 {
        assert(ev.drop_last()[i] == ev[i]);
        lemma_exports_to_nonempty(ev.drop_last(), o, i);
    }
}

proof fn lemma_graph_exports_has(m: Map<usize, NodeView>, ks: Seq<usize>, role: PinKind, p: int, i: int)
    requires
        0 <= p < ks.len(),
        0 <= i < node_exports(m[ks[p]], ks[p], role).len(),
    ensures
        exists|t: int|
            0 <= t < graph_exports(m, ks, role).len() && graph_exports(m, ks, role)[t] == node_exports(
                m[ks[p]],
                ks[p],
                role,
            )[i],
    decreases ks.len(),
{
    let a = graph_exports(m, ks.drop_last(), role);
    let b = node_exports(m[ks.last()], ks.last(), role);
    let g = graph_exports(m, ks, role);
    assert(g == a + b);
    if p == ks.len() - 1 {
        assert(ks.last() == ks[p]);
        assert(g[a.len() + i] == b[i]);
    } else {
        assert(ks.drop_last()[p] == ks[p]);
        lemma_graph_exports_has(m, ks.drop_last(), role, p, i);
        let t = choose|t: int| 0 <= t < a.len() && a[t] == node_exports(m[ks[p]], ks[p], role)[i];
        assert(g[t] == a[t]);
    }
}

proof fn lemma_outputs_fed(m: Map<usize, NodeView>, ks: Seq<usize>, count: int, o: usize)
    requires
        outputs_fed(m, count),
        keys_in_order(ks, m.dom()),
        o < count,
    ensures
        exports_to(graph_exports(m, ks, PinKind::OutValue), o).len() > 0,
{
    assert(fed(m, o));
    let (k, i) = choose|k: usize, i: int|
        m.dom().contains(k) && 0 <= i < node_exports(m[k], k, PinKind::OutValue).len()
            && (#[trigger] node_exports(m[k], k, PinKind::OutValue)[i]).0 == o;
    assert(ks.contains(k));
    let p = choose|p: int| 0 <= p < ks.len() && ks[p] == k;
    lemma_graph_exports_has(m, ks, PinKind::OutValue, p, i);
    let ev = graph_exports(m, ks, PinKind::OutValue);
    let t = choose|t: int| 0 <= t < ev.len() && ev[t] == node_exports(m[ks[p]], ks[p], PinKind::OutValue)[i];
    lemma_exports_to_nonempty(ev, o, t);
}

/// The number of pins of the interface.
pub open spec fn interface_size(c: CompositeNodeGraph) -> int {
    (c.pins.in_control@.len() + c.pins.out_control@.len() + c.pins.in_value@.len()
        + c.pins.out_value@.len()) as int
}

/// The links of the inner nodes to the interface fit it: each goes to a
/// pin of the interface, and every value output of the interface is fed.
pub open spec fn interface_fits(c: CompositeNodeGraph) -> bool {
    let m = c.graph@;
    &&& exports_in_range(m, PinKind::InControl, c.pins.in_control@.len() as int)
    &&& exports_in_range(m, PinKind::OutControl, c.pins.out_control@.len() as int)
    &&& exports_in_range(m, PinKind::InValue, c.pins.in_value@.len() as int)
    &&& exports_in_range(m, PinKind::OutValue, c.pins.out_value@.len() as int)
    &&& outputs_fed(m, c.pins.out_value@.len() as int)
}

proof fn lemma_buckets_encodable(
    m: Map<usize, NodeView>,
    ev: Seq<(usize, Connection)>,
    role: PinKind,
    buckets: Seq<Vec<Connection>>,
)
    requires
        graph_encodable(m),
        forall|o: int| 0 <= o < buckets.len() ==> (#[trigger] buckets[o])@ == exports_to(ev, o as usize),
        forall|i: int|
            0 <= i < ev.len() ==> {
                let e = #[trigger] ev[i];
                &&& m.dom().contains(e.1.0.0)
                &&& e.1.1 < role_len(m[e.1.0.0], role)
            },
    ensures
        forall|o: int, t: int|
            0 <= o < buckets.len() && 0 <= t < buckets[o]@.len() ==> ((#[trigger] buckets[o]@[t]).0.0 as i32) < i32::MAX,
{
    assert forall|o: int, t: int|
        0 <= o < buckets.len() && 0 <= t < buckets[o]@.len() implies ((#[trigger] buckets[o]@[t]).0.0 as i32) < i32::MAX by {
        lemma_exports_to_valid(ev, o as usize, m, role);
        let c = exports_to(ev, o as usize)[t];
        assert(buckets[o]@[t] == c);
        assert(m.dom().contains(c.0.0));
    }
}

impl CompositeNodeGraph {
    /// Registers the graph in `bundle`: first the graph itself, under a new
    /// identifier of the node-graph category, with the port mapping of its
    /// interface; then its declaration, whose value pins take the types of
    /// the inner pins linked to them. Returns the declaration's identifier
    /// with the graph's identifier and the kind of the nodes that stand
    /// for it.
    pub fn apply(self, bundle: &mut AssetBundle) -> (r: AssetRef<RefData>)
        requires
            wf(self.graph@),
            graph_encodable(self.graph@),
            interface_fits(self),
            interface_size(self) < i32::MAX,
            bundle_wf(*old(bundle)),
            counters(old(bundle).allocators@).contains_key(Category::ServerNodeGraph),
            counters(old(bundle).allocators@)[Category::ServerNodeGraph] < i64::MAX,
            counters(old(bundle).allocators@).contains_key(Category::NodeDecl),
            counters(old(bundle).allocators@)[Category::NodeDecl] < i64::MAX,
        ensures
            r.data.id == allocated(
                Category::ServerNodeGraph,
                AssetKind::Basic,
                counters(old(bundle).allocators@)[Category::ServerNodeGraph],
            ),
            r.root == allocated(
                Category::NodeDecl,
                AssetKind::Basic,
                counters(old(bundle).allocators@)[Category::NodeDecl],
            ),
            counters(final(bundle).allocators@) == counters(old(bundle).allocators@).insert(
                Category::ServerNodeGraph,
                (r.data.id.guid + 1) as i64,
            ).insert(Category::NodeDecl, (r.root.guid + 1) as i64),
            final(bundle).assets@.len() == old(bundle).assets@.len() + 2,
            final(bundle).assets@.subrange(0, old(bundle).assets@.len() as int) == old(bundle).assets@,
            exists|ks: Seq<usize>|
                #![trigger keys_in_order(ks, self.graph@.dom())]
                {
                    let a = final(bundle).assets@[old(bundle).assets@.len() as int];
                    &&& keys_in_order(ks, self.graph@.dom())
                    &&& graph_asset_ok(a, r.data.id, AssetKind::CompositeGraph, self.graph.name@, self.graph@)
                    &&& graph_data(a).port_mapping@ == composite_mappings(self, self.graph@, ks)
                    &&& graph_data(a).blackboard@.len() == 0
                    &&& exists|d: NodeDecl|
                        #![trigger composite_decl_ok(d, self, self.graph@, ks, r.data.id)]
                        {
                            &&& composite_decl_ok(d, self, self.graph@, ks, r.data.id)
                            &&& decl_asset_ok(final(bundle).assets@.last(), r.root, d)
                            &&& decl_kind_ok(
                                r.data.node,
                                r.root.guid,
                                d.pins.in_control@.len() as usize,
                                d.pins.out_control@.len() as usize,
                                d.pins.in_value@.map_values(|p: DeclPin| p.kind),
                                d.pins.out_value@.map_values(|p: DeclPin| p.kind->0),
                            )
                        }
                },
            final(bundle).mode == old(bundle).mode,
            final(bundle).primary@ == old(bundle).primary@,
            bundle_wf(*final(bundle)),
    {
        let ghost c = self;
        let ghost m = self.graph@;
        let ghost start = bundle.assets@;
        let id = bundle.alloc_id(Category::ServerNodeGraph, AssetKind::Basic);
        let keys = self.graph.get_nodes();
        let ghost ks = keys@.map_values(|x: NodeRef| x.0);
        proof {
            lemma_keys_in_order(keys@, m.dom());
            assert forall|i: int| 0 <= i < keys@.len() implies m.dom().contains(#[trigger] keys@[i].0) by {
                assert(keys@.contains(keys@[i]));
                assert(keys@[i] == NodeRef(keys@[i].0));
            }
            assert forall|i: int| 0 <= i < ks.len() implies m.dom().contains(#[trigger] ks[i]) by {
                assert(ks[i] == keys@[i].0);
            }
            lemma_graph_exports_in_range(m, ks, PinKind::InControl, c.pins.in_control@.len() as int);
            lemma_graph_exports_in_range(m, ks, PinKind::OutControl, c.pins.out_control@.len() as int);
            lemma_graph_exports_in_range(m, ks, PinKind::InValue, c.pins.in_value@.len() as int);
            lemma_graph_exports_in_range(m, ks, PinKind::OutValue, c.pins.out_value@.len() as int);
        }
        let ev_ic = exports_of_graph(&self.graph, &keys, PinKind::InControl);
        let ev_oc = exports_of_graph(&self.graph, &keys, PinKind::OutControl);
        let ev_iv = exports_of_graph(&self.graph, &keys, PinKind::InValue);
        let ev_ov = exports_of_graph(&self.graph, &keys, PinKind::OutValue);
        let b_ic = bucket(&ev_ic, self.pins.in_control.len());
        let b_oc = bucket(&ev_oc, self.pins.out_control.len());
        let b_iv = bucket(&ev_iv, self.pins.in_value.len());
        let b_ov = bucket(&ev_ov, self.pins.out_value.len());
        proof {
            lemma_buckets_encodable(m, ev_ic@, PinKind::InControl, b_ic@);
            lemma_buckets_encodable(m, ev_oc@, PinKind::OutControl, b_oc@);
            lemma_buckets_encodable(m, ev_iv@, PinKind::InValue, b_iv@);
            lemma_buckets_encodable(m, ev_ov@, PinKind::OutValue, b_ov@);
        }
        let mut mapping = mappings_of(PinKind::InControl, &b_ic, Ghost(ev_ic@));
        let mut more = mappings_of(PinKind::OutControl, &b_oc, Ghost(ev_oc@));
        mapping.append(&mut more);
        let mut more = mappings_of(PinKind::InValue, &b_iv, Ghost(ev_iv@));
        mapping.append(&mut more);
        let mut more = mappings_of(PinKind::OutValue, &b_ov, Ghost(ev_ov@));
        mapping.append(&mut more);
        let kinds_in = pin_kinds(&self.graph, PinKind::InValue, &b_iv, Ghost(ev_iv@));
        let kinds_out = pin_kinds(&self.graph, PinKind::OutValue, &b_ov, Ghost(ev_ov@));
        let pins = PinTable {
            in_control: plain_pins(&self.pins.in_control),
            out_control: plain_pins(&self.pins.out_control),
            in_value: typed_pins(&self.pins.in_value, kinds_in),
            out_value: typed_pins(&self.pins.out_value, kinds_out),
        };
        let mut references: Vec<Identifier> = Vec::new();
        references.push(id);
        let decl = NodeDecl {
            name: self.graph.name.clone(),
            description: self.description,
            pins,
            implementation: InterfaceImplementation { category: ImplCategory::Composite, template: None },
            template_root: TemplateRoot::UserComposite,
            template_sub: TemplateSub::NoSub,
            references,
        };
        let ghost d = decl;
        proof {
            assert(references@ =~= seq![id]);
            assert(composite_decl_ok(d, c, m, ks, id));
            assert forall|o: int| 0 <= o < d.pins.out_value@.len() implies (#[trigger] d.pins.out_value@[o]).kind is Some by {
                lemma_outputs_fed(m, ks, c.pins.out_value@.len() as int, o as usize);
                assert(opt_same(kinds_out@[o], pin_kind_of(m, PinKind::OutValue, ev_ov@, o as usize)));
            }
            assert(mapping@ == composite_mappings(c, m, ks));
        }
        let data = self.graph.into_asset(id, AssetKind::CompositeGraph, mapping, Vec::new());
        let ghost graph_asset = data;
        bundle.push(data);
        let ghost mid = bundle.assets@;
        assert(mid[start.len() as int] == graph_asset);
        let decl_ref = decl.apply(bundle);
        proof {
            assert(bundle.assets@.drop_last() == mid);
            assert(bundle.assets@[start.len() as int] == mid[start.len() as int]);
            assert(bundle.assets@.subrange(0, start.len() as int) =~= start);
        }
        AssetRef { root: decl_ref.root, data: RefData { id, node: decl_ref.data } }
    }
}

// ---------------------------------------------------------------------------
// Laws.
// ---------------------------------------------------------------------------

proof fn lemma_exports_to_split(ev: Seq<(usize, Connection)>, count: int)
    requires
        forall|i: int| 0 <= i < ev.len() ==> (#[trigger] ev[i]).0 < count,
        0 <= count <= usize::MAX,
    ensures
        sum_lens(ev, count) == ev.len(),
    decreases ev.len(),
{
    if ev.len() > 0 {
        let d = ev.drop_last();
        assert forall|i: int| 0 <= i < d.len() implies (#[trigger] d[i]).0 < count by {
            assert(d[i] == ev[i]);
        }
        lemma_exports_to_split(d, count);
        assert(ev.last() == ev[ev.len() - 1]);
        lemma_sum_lens_step(ev, count, count);
    } else {
        lemma_sum_lens_empty(ev, count);
    }
}

/// How many inner pins are linked to the first `upto` interface pins.
pub open spec fn sum_lens(ev: Seq<(usize, Connection)>, upto: int) -> int
    decreases upto,
{
    if upto <= 0 {
        0
    } else {
        sum_lens(ev, upto - 1) + exports_to(ev, (upto - 1) as usize).len()
    }
}

proof fn lemma_sum_lens_step(ev: Seq<(usize, Connection)>, count: int, upto: int)
    requires
        ev.len() > 0,
        0 <= upto <= count,
        count <= usize::MAX,
        ev.last().0 < count,
    ensures
        sum_lens(ev, upto) == sum_lens(ev.drop_last(), upto) + if (ev.last().0 as int) < upto {
            1int
        } else {
            0int
        },
    decreases upto,
{
    if upto > 0 {
        lemma_sum_lens_step(ev, count, upto - 1);
        let o = (upto - 1) as usize;
        assert(exports_to(ev, o).len() == exports_to(ev.drop_last(), o).len() + if ev.last().0 == o {
            1int
        } else {
            0int
        });
    }
}

proof fn lemma_sum_lens_empty(ev: Seq<(usize, Connection)>, upto: int)
    requires
        ev.len() == 0,
    ensures
        sum_lens(ev, upto) == 0,
    decreases upto,
{
    if upto > 0 {
        lemma_sum_lens_empty(ev, upto - 1);
    }
}

proof fn lemma_role_mappings_len(kind: PinKind, ev: Seq<(usize, Connection)>, upto: int)
    ensures
        role_mappings(kind, ev, upto).len() == sum_lens(ev, upto),
    decreases upto,
{
    if upto > 0 {
        lemma_role_mappings_len(kind, ev, upto - 1);
    }
}

/// Every link of an inner pin to the interface gives exactly one mapping:
/// when all links go to the `count` pins of the interface, the mappings of
/// the role are as many as the links.
pub proof fn lemma_one_mapping_per_link(kind: PinKind, ev: Seq<(usize, Connection)>, count: int)
    requires
        0 <= count <= usize::MAX,
        forall|i: int| 0 <= i < ev.len() ==> (#[trigger] ev[i]).0 < count,
    ensures
        role_mappings(kind, ev, count).len() == ev.len(),
{
    lemma_role_mappings_len(kind, ev, count);
    lemma_exports_to_split(ev, count);
}

} // verus!
