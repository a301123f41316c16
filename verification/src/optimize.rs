//! Local simplifications of a compiled function's graph: constant
//! branches, unused calculations, variables that need no storage, and
//! structure values that are built only to be split again.

use vstd::prelude::*;

use crate::composite::CompositeNodeGraph;
use crate::graph::{
    connect_control_spec, control_in_at, control_in_ok, control_out_ok, control_out_at, grows, lemma_add_export_grows_control_in,
    lemma_add_export_grows_control_out, lemma_connect_control_wf, no_self_links, remove_spec,
    shape_ok, touches, value_in_ok, with_control_in, accepts, export_value_out_spec, set_default_spec,
    set_value_in_spec, strip_node, types_meet, unlink_value_in_spec, value_in_at, value_out_at, with_value_link,
    with_value_out, without_export_out, fresh, ValueIn, with_control_out, wf, Connection, Link, Node,
    NodeGraph, NodeId, NodeKind, NodeRef, NodeView, renumber_spec, renumbered, renumbered_input,
};
use crate::ids::AssetKind;
use crate::nodes::{bool_type, node_not};
use crate::value::{copy_all, instance_of, ValueBool, same_kind, same_value, AnyValue};

verus! {

/// Where an output of a function's interface takes its value when no node
/// provides it: one of the function's inputs, or a constant.
#[derive(Debug)]
pub enum ProxyOut {
    Input(usize),
    Constant(Option<AnyValue>),
}

/// What the callers of a compiled function need to know of its
/// interface: whether it has control pins, which inputs it keeps, and the
/// outputs that no node provides.
#[derive(Debug)]
pub struct FnDecl {
    pub control: bool,
    pub proxies_in: Vec<usize>,
    pub proxies_out: Vec<Option<ProxyOut>>,
}

/// A compiled function's graph together with its interface, being
/// simplified.
pub struct Optimizer {
    pub graph: CompositeNodeGraph,
    pub decl: FnDecl,
}

/// The kind of a node that is never reached: one control pin in, nothing
/// else.
pub fn node_ir_unreachable() -> (r: NodeKind)
    ensures
        r.id == NodeId::Unreachable,
        r.kernel_id == 0,
        r.controls_in_num == 1,
        r.controls_out_num == 0,
        r.values_in_types@.len() == 0,
        r.values_out_types@.len() == 0,
        r.references@.len() == 0,
{
    NodeKind::full(NodeId::Unreachable, 0, 1, 0, Vec::new(), Vec::new())
}

/// The id of the conditional branch node of the game.
pub open spec fn if_id() -> NodeId {
    NodeId::Low { kind: AssetKind::SysCallStub, id: 2 }
}

// ---------------------------------------------------------------------------
// Moving control links.
// ---------------------------------------------------------------------------

/// The graph keeps its nodes, and each node its numbers of pins.
pub open spec fn pins_kept(m: Map<usize, NodeView>, m2: Map<usize, NodeView>) -> bool {
    &&& m2.dom() == m.dom()
    &&& forall|k: usize|
        #[trigger] m.dom().contains(k) ==> {
            &&& m2[k].controls_in.len() == m[k].controls_in.len()
            &&& m2[k].controls_out.len() == m[k].controls_out.len()
            &&& m2[k].values_in.len() == m[k].values_in.len()
            &&& m2[k].values_out.len() == m[k].values_out.len()
        }
}

/// The control link from `from` to `to` can be made: each end that is a
/// node's pin exists, and the two ends are on different nodes.
pub open spec fn relink_ok(m: Map<usize, NodeView>, from: Link, to: Link) -> bool {
    match (from, to) {
        (Link::Connection(f), Link::Connection(t)) => control_out_at(m, f) && control_in_at(m, t)
            && f.0.0 != t.0.0,
        (Link::Connection(f), Link::Export(_)) => control_out_at(m, f),
        (Link::Export(_), Link::Connection(t)) => control_in_at(m, t),
        (Link::Export(_), Link::Export(_)) => true,
    }
}

/// The graph, and whether the function keeps its control pins, after
/// control flows from `from` to `to`: two nodes are linked, a node is
/// linked to the interface, or, where the interface's control input
/// would lead straight to its output, the function loses its control
/// pins.
pub open spec fn relink_spec(m: Map<usize, NodeView>, control: bool, from: Link, to: Link) -> (
    Map<usize, NodeView>,
    bool,
) {
    match (from, to) {
        (Link::Connection(f), Link::Connection(t)) => (connect_control_spec(m, f, t), control),
        (Link::Connection(f), Link::Export(t)) => (
            m.insert(f.0.0, with_control_out(m[f.0.0], f.1 as int, Link::Export(t))),
            control,
        ),
        (Link::Export(f), Link::Connection(t)) => (
            m.insert(t.0.0, with_control_in(m[t.0.0], t.1 as int, Link::Export(f))),
            control,
        ),
        (Link::Export(_), Link::Export(_)) => (m, false),
    }
}

/// The result of relinking `from` to each of `tos` in turn.
pub open spec fn relink_row(m: Map<usize, NodeView>, control: bool, from: Link, tos: Seq<Link>) -> (
    Map<usize, NodeView>,
    bool,
)
    decreases tos.len(),
{
    if tos.len() == 0 {
        (m, control)
    } else {
        let prev = relink_row(m, control, from, tos.drop_last());
        relink_spec(prev.0, prev.1, from, tos.last())
    }
}

/// The result of relinking each of `froms` in turn to each of `tos`.
pub open spec fn relink_all(m: Map<usize, NodeView>, control: bool, froms: Seq<Link>, tos: Seq<Link>) -> (
    Map<usize, NodeView>,
    bool,
)
    decreases froms.len(),
{
    if froms.len() == 0 {
        (m, control)
    } else {
        let prev = relink_all(m, control, froms.drop_last(), tos);
        relink_row(prev.0, prev.1, froms.last(), tos)
    }
}

/// Every link of `froms` can be relinked to every link of `tos`.
pub open spec fn all_relink_ok(m: Map<usize, NodeView>, froms: Seq<Link>, tos: Seq<Link>) -> bool {
    forall|i: int, j: int| 0 <= i < froms.len() && 0 <= j < tos.len() ==> relink_ok(m, #[trigger] froms[i], #[trigger] tos[j])
}

proof fn lemma_grows_pins_kept(m: Map<usize, NodeView>, m2: Map<usize, NodeView>)
    requires
        grows(m, m2),
    ensures
        pins_kept(m, m2),
{
    assert forall|k: usize| #[trigger] m.dom().contains(k) implies {
        &&& m2[k].controls_in.len() == m[k].controls_in.len()
        &&& m2[k].controls_out.len() == m[k].controls_out.len()
        &&& m2[k].values_in.len() == m[k].values_in.len()
        &&& m2[k].values_out.len() == m[k].values_out.len()
    } by {
        assert(m2[k].values_in == m[k].values_in);
        assert(m2[k].values_out == m[k].values_out);
    }
}

proof fn lemma_pins_kept_trans(m: Map<usize, NodeView>, m2: Map<usize, NodeView>, m3: Map<usize, NodeView>)
    requires
        pins_kept(m, m2),
        pins_kept(m2, m3),
    ensures
        pins_kept(m, m3),
{
    assert forall|k: usize| #[trigger] m.dom().contains(k) implies {
        &&& m3[k].controls_in.len() == m[k].controls_in.len()
        &&& m3[k].controls_out.len() == m[k].controls_out.len()
        &&& m3[k].values_in.len() == m[k].values_in.len()
        &&& m3[k].values_out.len() == m[k].values_out.len()
    } by {
        assert(m2.dom().contains(k));
    }
}

proof fn lemma_relink_ok_kept(m: Map<usize, NodeView>, m2: Map<usize, NodeView>, from: Link, to: Link)
    requires
        pins_kept(m, m2),
        relink_ok(m, from, to),
    ensures
        relink_ok(m2, from, to),
{
    match from {
        Link::Connection(f) => {
            assert(m.dom().contains(f.0.0));
        },
        _ => {},
    }
    match to {
        Link::Connection(t) => {
            assert(m.dom().contains(t.0.0));
        },
        _ => {},
    }
}

proof fn lemma_relink_step(m: Map<usize, NodeView>, control: bool, from: Link, to: Link)
    requires
        wf(m),
        relink_ok(m, from, to),
    ensures
        wf(relink_spec(m, control, from, to).0),
        pins_kept(m, relink_spec(m, control, from, to).0),
{
    match (from, to) {
        (Link::Connection(f), Link::Connection(t)) => {
            lemma_connect_control_wf(m, f, t);
            lemma_grows_pins_kept(m, connect_control_spec(m, f, t));
        },
        (Link::Connection(f), Link::Export(t)) => {
            lemma_add_export_grows_control_out(m, f, t);
            lemma_grows_pins_kept(m, relink_spec(m, control, from, to).0);
        },
        (Link::Export(f), Link::Connection(t)) => {
            lemma_add_export_grows_control_in(m, t, f);
            lemma_grows_pins_kept(m, relink_spec(m, control, from, to).0);
        },
        (Link::Export(_), Link::Export(_)) => {
            assert(pins_kept(m, m));
        },
    }
}

impl Optimizer {
    /// Lets control flow from `from` to `to`: links the two nodes, links
    /// the node to the interface, or, where the interface's control input
    /// would lead straight to its output, drops the function's control
    /// pins.
    pub fn relink_control(&mut self, from: Link, to: Link)
        requires
            wf(old(self).graph.graph@),
            relink_ok(old(self).graph.graph@, from, to),
        ensures
            (final(self).graph.graph@, final(self).decl.control) == relink_spec(
                old(self).graph.graph@,
                old(self).decl.control,
                from,
                to,
            ),
            wf(final(self).graph.graph@),
            pins_kept(old(self).graph.graph@, final(self).graph.graph@),
            final(self).graph.pins == old(self).graph.pins,
            final(self).graph.description == old(self).graph.description,
            final(self).decl.proxies_in == old(self).decl.proxies_in,
            final(self).decl.proxies_out == old(self).decl.proxies_out,
    {
        proof {
            lemma_relink_step(self.graph.graph@, self.decl.control, from, to);
        }
        match from {
            Link::Connection(f) => match to {
                Link::Connection(t) => self.graph.graph.connect_control(f, t),
                Link::Export(t) => self.graph.graph.export_control_out(f, t),
            },
            Link::Export(f) => match to {
                Link::Connection(t) => self.graph.graph.export_control_in(t, f),
                Link::Export(_) => {
                    self.decl.control = false;
                },
            },
        }
    }

    /// Lets control flow from each of `from` to each of `to`, in turn.
    pub fn relink_controls(&mut self, from: &Vec<Link>, to: &Vec<Link>)
        requires
            wf(old(self).graph.graph@),
            all_relink_ok(old(self).graph.graph@, from@, to@),
        ensures
            (final(self).graph.graph@, final(self).decl.control) == relink_all(
                old(self).graph.graph@,
                old(self).decl.control,
                from@,
                to@,
            ),
            wf(final(self).graph.graph@),
            pins_kept(old(self).graph.graph@, final(self).graph.graph@),
            final(self).graph.pins == old(self).graph.pins,
            final(self).graph.description == old(self).graph.description,
            final(self).decl.proxies_in == old(self).decl.proxies_in,
            final(self).decl.proxies_out == old(self).decl.proxies_out,
    {
        let ghost m0 = self.graph.graph@;
        let ghost c0 = self.decl.control;
        let mut i: usize = 0;
        while i < from.len()
            invariant
                i <= from@.len(),
                wf(self.graph.graph@),
                pins_kept(m0, self.graph.graph@),
                all_relink_ok(m0, from@, to@),
                (self.graph.graph@, self.decl.control) == relink_all(m0, c0, from@.subrange(0, i as int), to@),
                self.graph.pins == old(self).graph.pins,
                self.graph.description == old(self).graph.description,
                self.decl.proxies_in == old(self).decl.proxies_in,
                self.decl.proxies_out == old(self).decl.proxies_out,
            decreases from@.len() - i,
        {
            let f = from[i];
            let ghost start = (self.graph.graph@, self.decl.control);
            let mut j: usize = 0;
            while j < to.len()
                invariant
                    i < from@.len(),
                    f == from@[i as int],
                    j <= to@.len(),
                    wf(self.graph.graph@),
                    pins_kept(m0, self.graph.graph@),
                    all_relink_ok(m0, from@, to@),
                    (self.graph.graph@, self.decl.control) == relink_row(start.0, start.1, f, to@.subrange(0, j as int)),
                    self.graph.pins == old(self).graph.pins,
                    self.graph.description == old(self).graph.description,
                    self.decl.proxies_in == old(self).decl.proxies_in,
                    self.decl.proxies_out == old(self).decl.proxies_out,
                decreases to@.len() - j,
            {
                let t = to[j];
                proof {
                    assert(relink_ok(m0, from@[i as int], to@[j as int]));
                    lemma_relink_ok_kept(m0, self.graph.graph@, f, t);
                }
                let ghost before = self.graph.graph@;
                self.relink_control(f, t);
                proof {
                    lemma_pins_kept_trans(m0, before, self.graph.graph@);
                    assert(to@.subrange(0, j + 1).drop_last() =~= to@.subrange(0, j as int));
                }
                j = j + 1;
            }
            proof {
                assert(to@.subrange(0, to@.len() as int) =~= to@);
                assert(from@.subrange(0, i + 1).drop_last() =~= from@.subrange(0, i as int));
            }
            i = i + 1;
        }
        proof {
            assert(from@.subrange(0, from@.len() as int) =~= from@);
        }
    }
}

// ---------------------------------------------------------------------------
// Removing nodes.
// ---------------------------------------------------------------------------

/// Both links lead to pins of the same node.
pub open spec fn both_on_one_node(a: Link, b: Link) -> bool {
    match (a, b) {
        (Link::Connection(x), Link::Connection(y)) => x.0.0 == y.0.0,
        _ => false,
    }
}

/// No node of `ins` is a node of `outs`.
pub open spec fn ends_apart(ins: Seq<Link>, outs: Seq<Link>) -> bool {
    forall|a: int, b: int|
        0 <= a < ins.len() && 0 <= b < outs.len() ==> !both_on_one_node(#[trigger] ins[a], #[trigger] outs[b])
}

/// Node `key` can be removed, and what reached its control input `i`
/// can then flow to what its control output `j` reached.
pub open spec fn bypass_ok(m: Map<usize, NodeView>, key: usize, i: int, j: int) -> bool {
    &&& 0 <= i < m[key].controls_in.len()
    &&& 0 <= j < m[key].controls_out.len()
    &&& no_self_links(m[key], key)
    &&& ends_apart(m[key].controls_in[i], m[key].controls_out[j])
}

/// The graph, and whether the function keeps its control pins, after
/// node `key` is removed and what reached its control input `i` is led to
/// what its control output `j` reached.
pub open spec fn bypass_spec(m: Map<usize, NodeView>, control: bool, key: usize, i: int, j: int) -> (
    Map<usize, NodeView>,
    bool,
) {
    relink_all(remove_spec(m, key), control, m[key].controls_in[i], m[key].controls_out[j])
}

/// A node without control pins: it only computes.
pub open spec fn is_calc(k: NodeKind) -> bool {
    k.controls_in_num == 0 && k.controls_out_num == 0
}

/// No value output of the node is linked.
pub open spec fn outputs_unused(n: NodeView) -> bool {
    forall|j: int| 0 <= j < n.values_out.len() ==> (#[trigger] n.values_out[j]).len() == 0
}

proof fn lemma_bypass_relink_ok(m: Map<usize, NodeView>, key: usize, i: int, j: int)
    requires
        wf(m),
        m.dom().contains(key),
        bypass_ok(m, key, i, j),
    ensures
        all_relink_ok(remove_spec(m, key), m[key].controls_in[i], m[key].controls_out[j]),
{
    let m2 = remove_spec(m, key);
    let ins = m[key].controls_in[i];
    let outs = m[key].controls_out[j];
    assert forall|a: int, b: int| 0 <= a < ins.len() && 0 <= b < outs.len() implies relink_ok(
        m2,
        #[trigger] ins[a],
        #[trigger] outs[b],
    ) by {
        assert(control_in_ok(m, key, i, a));
        assert(control_out_ok(m, key, j, b));
        assert(!touches_key(ins[a], key));
        assert(!touches_key(outs[b], key));
    }
}

spec fn touches_key(l: Link, key: usize) -> bool {
    l matches Link::Connection(c) && c.0.0 == key
}

/// The branch that an `if` node whose condition is the constant in its
/// value input takes: 0 for true, 1 for false.
pub open spec fn if_branch(n: NodeView) -> int {
    match n.values_in[0].default {
        Some(AnyValue::Bool(b)) => if b.0 {
            0
        } else {
            1
        },
        _ => 0,
    }
}

/// An `if` node can be resolved where its condition is a constant: the
/// constant is a boolean, and the node can be bypassed on that branch.
pub open spec fn if_ready(m: Map<usize, NodeView>, key: usize) -> bool {
    let n = m[key];
    n.kind.id == if_id() ==> {
        &&& n.values_in.len() >= 1
        &&& n.values_in[0].link is None ==> {
            &&& n.values_in[0].default matches Some(AnyValue::Bool(_))
            &&& bypass_ok(m, key, 0, if_branch(n))
        }
    }
}

/// The source of the variable that a variable write `key` writes to.
pub open spec fn set_local_source(m: Map<usize, NodeView>, key: usize) -> Connection {
    m[key].values_in[0].link->0->Connection_0
}

/// A variable write can be dropped where nothing reads the variable's
/// value: it names its variable, and can be bypassed where the variable's
/// value is unread.
pub open spec fn set_local_ready(m: Map<usize, NodeView>, key: usize) -> bool {
    let n = m[key];
    n.kind.id == NodeId::SetLocal ==> {
        &&& n.values_in.len() >= 1
        &&& n.values_in[0].link is Some
        &&& n.values_in[0].link->0 is Connection ==> {
            let s = set_local_source(m, key);
            &&& m[s.0.0].values_out.len() >= 2
            &&& m[s.0.0].values_out[1].len() == 0 ==> bypass_ok(m, key, 0, 0)
        }
    }
}

/// The variable write `key` writes a variable whose value nothing reads.
pub open spec fn set_local_unread(m: Map<usize, NodeView>, key: usize) -> bool {
    &&& m[key].kind.id == NodeId::SetLocal
    &&& m[key].values_in[0].link is Some
    &&& m[key].values_in[0].link->0 is Connection
    &&& m[set_local_source(m, key).0.0].values_out[1].len() == 0
}

proof fn lemma_calc_no_self_links(m: Map<usize, NodeView>, key: usize)
    requires
        wf(m),
        m.dom().contains(key),
        is_calc(m[key].kind),
        outputs_unused(m[key]),
    ensures
        no_self_links(m[key], key),
{
    let n = m[key];
    assert(shape_ok(n));
    assert forall|i: int| 0 <= i < n.values_in.len() implies !(#[trigger] n.values_in[i].link matches Some(l)
        && touches(l, key)) by {
        assert(value_in_ok(m, key, i));
        match n.values_in[i].link {
            Some(Link::Connection(c)) => {
                if c.0.0 == key {
                    assert(n.values_out[c.1 as int].len() == 0);
                }
            },
            _ => {},
        }
    }
}

impl Optimizer {
    /// Drops node `node` if it only computes and nothing uses its values;
    /// returns `None` then, `Some(())` if it is kept.
    pub fn eliminate_calc(&mut self, node: NodeRef) -> (r: Option<()>)
        requires
            wf(old(self).graph.graph@),
            old(self).graph.graph@.dom().contains(node.0),
        ensures
            ({
                let m = old(self).graph.graph@;
                if is_calc(m[node.0].kind) && outputs_unused(m[node.0]) {
                    r is None && final(self).graph.graph@ == remove_spec(m, node.0)
                } else {
                    r is Some && final(self).graph.graph@ == m
                }
            }),
            final(self).decl.control == old(self).decl.control,
            wf(final(self).graph.graph@),
            final(self).graph.pins == old(self).graph.pins,
            final(self).graph.description == old(self).graph.description,
            final(self).decl.proxies_in == old(self).decl.proxies_in,
            final(self).decl.proxies_out == old(self).decl.proxies_out,
    {
        let n = self.graph.graph.get_node(node);
        let calc = n.kind.controls_in_num == 0 && n.kind.controls_out_num == 0;
        let mut unused = true;
        let mut j: usize = 0;
        while j < n.values_out.len()
            invariant
                j <= n@.values_out.len(),
                n@ == old(self).graph.graph@[node.0],
                unused == forall|x: int| 0 <= x < j ==> (#[trigger] n@.values_out[x]).len() == 0,
            decreases n@.values_out.len() - j,
        {
            assert(n@.values_out[j as int] == n.values_out@[j as int]@);
            if n.values_out[j].len() != 0 {
                unused = false;
            }
            j = j + 1;
        }
        if calc && unused {
            proof {
                lemma_calc_no_self_links(self.graph.graph@, node.0);
            }
            self.graph.graph.remove(node);
            None
        } else {
            Some(())
        }
    }

    /// Drops the variable write `node` if nothing reads the value of the
    /// variable it writes, letting control pass around it; returns `None`
    /// then, `Some(())` if it is kept. It panics on a variable write
    /// without variable.
    pub fn eliminate_set_local(&mut self, node: NodeRef) -> (r: Option<()>)
        requires
            wf(old(self).graph.graph@),
            old(self).graph.graph@.dom().contains(node.0),
            set_local_ready(old(self).graph.graph@, node.0),
        ensures
            ({
                let m = old(self).graph.graph@;
                if set_local_unread(m, node.0) {
                    &&& r is None
                    &&& (final(self).graph.graph@, final(self).decl.control) == bypass_spec(
                        m,
                        old(self).decl.control,
                        node.0,
                        0,
                        0,
                    )
                } else {
                    &&& r is Some
                    &&& final(self).graph.graph@ == m
                    &&& final(self).decl.control == old(self).decl.control
                }
            }),
            wf(final(self).graph.graph@),
            final(self).graph.pins == old(self).graph.pins,
            final(self).graph.description == old(self).graph.description,
            final(self).decl.proxies_in == old(self).decl.proxies_in,
            final(self).decl.proxies_out == old(self).decl.proxies_out,
    {
        let ghost m = self.graph.graph@;
        let n = self.graph.graph.get_node(node);
        if n.kind.id == NodeId::SetLocal {
            let source = match n.values_in[0].link {
                Some(Link::Connection(c)) => c,
                Some(Link::Export(_)) => {
                    return Some(());
                },
                None => {
                    assert(false);
                    return Some(());
                },
            };
            proof {
                assert(value_in_ok(m, node.0, 0));
            }
            let src = self.graph.graph.get_node(source.node());
            if src.values_out[1].len() != 0 {
                return Some(());
            }
            proof {
                lemma_bypass_relink_ok(m, node.0, 0, 0);
            }
            let n = self.graph.graph.remove(node);
            self.relink_controls(&n.controls_in[0], &n.controls_out[0]);
            None
        } else {
            Some(())
        }
    }

    /// Resolves the `if` node `node` whose condition is a constant: drops
    /// it and lets control pass to the branch that the constant takes;
    /// returns `None` then, `Some(())` if it is kept. It panics on an `if`
    /// node whose constant condition is not a boolean.
    pub fn eliminate_if(&mut self, node: NodeRef) -> (r: Option<()>)
        requires
            wf(old(self).graph.graph@),
            old(self).graph.graph@.dom().contains(node.0),
            if_ready(old(self).graph.graph@, node.0),
        ensures
            ({
                let m = old(self).graph.graph@;
                let n = m[node.0];
                if n.kind.id == if_id() && n.values_in[0].link is None {
                    &&& r is None
                    &&& (final(self).graph.graph@, final(self).decl.control) == bypass_spec(
                        m,
                        old(self).decl.control,
                        node.0,
                        0,
                        if_branch(n),
                    )
                } else {
                    &&& r is Some
                    &&& final(self).graph.graph@ == m
                    &&& final(self).decl.control == old(self).decl.control
                }
            }),
            wf(final(self).graph.graph@),
            final(self).graph.pins == old(self).graph.pins,
            final(self).graph.description == old(self).graph.description,
            final(self).decl.proxies_in == old(self).decl.proxies_in,
            final(self).decl.proxies_out == old(self).decl.proxies_out,
    {
        let ghost m = self.graph.graph@;
        let n = self.graph.graph.get_node(node);
        if n.kind.id == (NodeId::Low { kind: AssetKind::SysCallStub, id: 2 }) && n.values_in[0].link.is_none() {
            proof {
                lemma_bypass_relink_ok(m, node.0, 0, if_branch(m[node.0]));
            }
            let n = self.graph.graph.remove(node);
            let value = match &n.values_in[0].default {
                Some(AnyValue::Bool(b)) => b.0,
                _ => {
                    assert(false);
                    false
                },
            };
            let branch: usize = if value {
                0
            } else {
                1
            };
            self.relink_controls(&n.controls_in[0], &n.controls_out[branch]);
            None
        } else {
            Some(())
        }
    }
}

// ---------------------------------------------------------------------------
// Moving values.
// ---------------------------------------------------------------------------

/// The graph keeps its nodes with their kinds and numbers of pins.
pub open spec fn kinds_kept(m: Map<usize, NodeView>, m2: Map<usize, NodeView>) -> bool {
    &&& pins_kept(m, m2)
    &&& forall|k: usize| #[trigger] m.dom().contains(k) ==> m2[k].kind == m[k].kind
}

/// `a` holds what `b` holds: the same link, and a value of the same
/// content.
pub open spec fn same_value_in(a: ValueIn, b: ValueIn) -> bool {
    &&& a.link == b.link
    &&& match (a.default, b.default) {
        (Some(x), Some(y)) => same_value(x, y),
        (None, None) => true,
        _ => false,
    }
}

/// `value` can be given to `to`: an input of a node that accepts its
/// value and whose type meets its link's, or an output of the interface
/// whose source, if it is a node's output, exists, or else whose proxy
/// exists.
pub open spec fn reset_ok(m: Map<usize, NodeView>, proxies: int, to: Link, value: ValueIn) -> bool {
    match to {
        Link::Connection(t) => {
            &&& value_in_at(m, t)
            &&& value.default matches Some(v) ==> accepts(m, t, v)
            &&& value.link matches Some(Link::Connection(c)) ==> {
                &&& value_out_at(m, c)
                &&& c.0.0 != t.0.0
                &&& types_meet(m, c, t)
            }
        },
        Link::Export(t) => match value.link {
            Some(Link::Connection(c)) => value_out_at(m, c),
            _ => 0 <= t < proxies,
        },
    }
}

/// The graph and the outputs' proxies after `to` is given `value`: a
/// node's input is set; an output of the interface is linked to the node
/// output that provides the value, or else unlinked from every node and
/// given the interface input or the constant as its proxy.
pub open spec fn reset_spec(m: Map<usize, NodeView>, proxies: Seq<Option<ProxyOut>>, to: Link, value: ValueIn) -> (
    Map<usize, NodeView>,
    Seq<Option<ProxyOut>>,
) {
    match to {
        Link::Connection(t) => (set_value_in_spec(m, t, value), proxies),
        Link::Export(t) => match value.link {
            Some(Link::Connection(c)) => (export_value_out_spec(m, c, t), proxies),
            Some(Link::Export(e)) => (
                m.map_values(|n: NodeView| without_export_out(n, t)),
                proxies.update(t as int, Some(ProxyOut::Input(e))),
            ),
            None => (
                m.map_values(|n: NodeView| without_export_out(n, t)),
                proxies.update(t as int, Some(ProxyOut::Constant(value.default))),
            ),
        },
    }
}

/// The result of giving each of `tos` in turn the value of the same
/// index in `values` (as many as `tos`).
pub open spec fn reset_all(
    m: Map<usize, NodeView>,
    proxies: Seq<Option<ProxyOut>>,
    tos: Seq<Link>,
    values: Seq<ValueIn>,
) -> (Map<usize, NodeView>, Seq<Option<ProxyOut>>)
    decreases tos.len(),
{
    if tos.len() == 0 {
        (m, proxies)
    } else {
        let prev = reset_all(m, proxies, tos.drop_last(), values.drop_last());
        reset_spec(prev.0, prev.1, tos.last(), values.last())
    }
}

proof fn lemma_same_value_variant(a: AnyValue, b: AnyValue)
    requires
        same_value(a, b),
    ensures
        same_kind(a, b),
        a matches AnyValue::Enum(x) ==> b matches AnyValue::Enum(y) && x == y,
        a matches AnyValue::Struct(x) ==> b matches AnyValue::Struct(y) && x.struct_id == y.struct_id,
        a matches AnyValue::IrAdt(x) ==> b matches AnyValue::IrAdt(y) && x.0@ == y.0@,
{
}

/// Values of the same content are accepted by the same types.
proof fn lemma_same_value_instance(k: AnyValue, a: AnyValue, b: AnyValue)
    requires
        same_value(a, b),
    ensures
        instance_of(k, a) == instance_of(k, b),
    decreases k,
{
    lemma_same_value_variant(a, b);
    match k {
        AnyValue::Dict(d) => {
            match (a, b) {
                (AnyValue::Dict(x), AnyValue::Dict(y)) => {
                    lemma_same_value_instance(d.key_type, x.key_type, y.key_type);
                    lemma_same_value_instance(d.value_type, x.value_type, y.value_type);
                },
                _ => {},
            }
        },
        _ => {},
    }
}

proof fn lemma_reset_kinds_kept(m: Map<usize, NodeView>, proxies: Seq<Option<ProxyOut>>, to: Link, value: ValueIn)
    requires
        wf(m),
        reset_ok(m, proxies.len() as int, to, value),
    ensures
        kinds_kept(m, reset_spec(m, proxies, to, value).0),
        reset_spec(m, proxies, to, value).1.len() == proxies.len(),
{
    let m2 = reset_spec(m, proxies, to, value).0;
    match to {
        Link::Connection(t) => {
            assert(m2 == set_value_in_spec(m, t, value));
            lemma_set_value_in_kept(m, t, value);
        },
        Link::Export(t) => {
            match value.link {
                Some(Link::Connection(c)) => {
                    lemma_export_value_out_kept(m, c, t);
                },
                _ => {
                    lemma_unexport_kept(m, t);
                },
            }
        },
    }
}

proof fn lemma_unexport_kept(m: Map<usize, NodeView>, t: usize)
    ensures
        kinds_kept(m, m.map_values(|n: NodeView| without_export_out(n, t))),
{
    let m2 = m.map_values(|n: NodeView| without_export_out(n, t));
    assert(m2.dom() =~= m.dom());
}

proof fn lemma_export_value_out_kept(m: Map<usize, NodeView>, c: Connection, t: usize)
    requires
        value_out_at(m, c),
    ensures
        kinds_kept(m, export_value_out_spec(m, c, t)),
{
    let m1 = m.map_values(|n: NodeView| without_export_out(n, t));
    let m2 = export_value_out_spec(m, c, t);
    assert(m1.dom() =~= m.dom());
    assert(m2.dom() =~= m.dom());
}

proof fn lemma_set_value_in_kept(m: Map<usize, NodeView>, t: Connection, value: ValueIn)
    requires
        wf(m),
        value_in_at(m, t),
        value.link matches Some(Link::Connection(c)) ==> value_out_at(m, c),
    ensures
        kinds_kept(m, set_value_in_spec(m, t, value)),
{
    let m1 = match value.default {
        Some(v) => set_default_spec(m, t, v),
        None => m,
    };
    assert(m1.dom() =~= m.dom());
    assert(kinds_kept(m, m1));
    assert(wf_links_like(m, m1));
    match value.link {
        Some(Link::Connection(c)) => {
            lemma_unlink_kept_like(m, m1, t);
            let u = unlink_value_in_spec(m1, t);
            let m2 = u.insert(c.0.0, with_value_out(u[c.0.0], c.1 as int, Link::Connection(t)));
            let m3 = m2.insert(t.0.0, with_value_link(m2[t.0.0], t.1 as int, Some(Link::Connection(c))));
            assert(m3 == set_value_in_spec(m, t, value));
            assert(m2.dom() =~= m.dom());
            assert(m3.dom() =~= m.dom());
        },
        Some(Link::Export(e)) => {
            lemma_unlink_kept_like(m, m1, t);
            let u = unlink_value_in_spec(m1, t);
            let m3 = u.insert(t.0.0, with_value_link(u[t.0.0], t.1 as int, Some(Link::Export(e))));
            assert(m3 == set_value_in_spec(m, t, value));
            assert(m3.dom() =~= m.dom());
        },
        None => {},
    }
}

/// The second graph has the value links of the first: setting an input's
/// value keeps the input's link, so its source still exists.
spec fn wf_links_like(m: Map<usize, NodeView>, m1: Map<usize, NodeView>) -> bool {
    &&& kinds_kept(m, m1)
    &&& forall|k: usize, i: int|
        #![trigger m1[k].values_in[i]]
        m.dom().contains(k) && 0 <= i < m[k].values_in.len() ==> m1[k].values_in[i].link == m[k].values_in[i].link
}

proof fn lemma_unlink_kept_like(m: Map<usize, NodeView>, m1: Map<usize, NodeView>, to: Connection)
    requires
        wf(m),
        value_in_at(m, to),
        wf_links_like(m, m1),
    ensures
        kinds_kept(m, unlink_value_in_spec(m1, to)),
{
    let m2 = unlink_value_in_spec(m1, to);
    assert(value_in_ok(m, to.0.0, to.1 as int));
    assert(m1[to.0.0].values_in[to.1 as int].link == m[to.0.0].values_in[to.1 as int].link);
    assert(m2.dom() =~= m.dom());
}

proof fn lemma_reset_ok_kept(
    m: Map<usize, NodeView>,
    m2: Map<usize, NodeView>,
    proxies: int,
    to: Link,
    value: ValueIn,
    copy: ValueIn,
)
    requires
        kinds_kept(m, m2),
        reset_ok(m, proxies, to, value),
        same_value_in(copy, value),
    ensures
        reset_ok(m2, proxies, to, copy),
{
    match to {
        Link::Connection(t) => {
            assert(m.dom().contains(t.0.0));
            match (copy.default, value.default) {
                (Some(x), Some(y)) => {
                    match m[t.0.0].kind.values_in_types@[t.1 as int] {
                        Some(k) => lemma_same_value_instance(k, x, y),
                        None => {},
                    }
                },
                _ => {},
            }
            match value.link {
                Some(Link::Connection(c)) => {
                    assert(m.dom().contains(c.0.0));
                },
                _ => {},
            }
        },
        Link::Export(t) => {
            match value.link {
                Some(Link::Connection(c)) => {
                    assert(m.dom().contains(c.0.0));
                },
                _ => {},
            }
        },
    }
}

/// A copy of `v` that holds the same.
fn copy_value_in(v: &ValueIn) -> (r: ValueIn)
    ensures
        same_value_in(r, *v),
{
    let default = match &v.default {
        Some(x) => Some(x.duplicate()),
        None => None,
    };
    ValueIn { default, link: v.link }
}

impl Optimizer {
    /// Gives `to` the value `value`: sets a node's input; links an output
    /// of the interface to the node output that provides the value, or
    /// else unlinks it from every node and makes the interface input or
    /// the constant its proxy.
    pub fn reset_value(&mut self, to: Link, value: ValueIn)
        requires
            wf(old(self).graph.graph@),
            reset_ok(old(self).graph.graph@, old(self).decl.proxies_out@.len() as int, to, value),
        ensures
            (final(self).graph.graph@, final(self).decl.proxies_out@) == reset_spec(
                old(self).graph.graph@,
                old(self).decl.proxies_out@,
                to,
                value,
            ),
            wf(final(self).graph.graph@),
            final(self).decl.control == old(self).decl.control,
            final(self).decl.proxies_in == old(self).decl.proxies_in,
            final(self).graph.pins == old(self).graph.pins,
            final(self).graph.description == old(self).graph.description,
    {
        match to {
            Link::Connection(t) => self.graph.graph.set_value_in(t, value),
            Link::Export(t) => match value.link {
                Some(Link::Connection(c)) => self.graph.graph.export_value_out(c, t),
                Some(Link::Export(e)) => {
                    self.graph.graph.unexport_value_out(t);
                    self.decl.proxies_out.set(t, Some(ProxyOut::Input(e)));
                },
                None => {
                    self.graph.graph.unexport_value_out(t);
                    self.decl.proxies_out.set(t, Some(ProxyOut::Constant(value.default)));
                },
            },
        }
    }

    /// Gives each of `to` in turn a copy of `value`.
    pub fn reset_values(&mut self, to: &Vec<Link>, value: ValueIn)
        requires
            wf(old(self).graph.graph@),
            forall|i: int|
                0 <= i < to@.len() ==> reset_ok(
                    old(self).graph.graph@,
                    old(self).decl.proxies_out@.len() as int,
                    #[trigger] to@[i],
                    value,
                ),
        ensures
            exists|copies: Seq<ValueIn>|
                {
                    &&& copies.len() == to@.len()
                    &&& forall|i: int| 0 <= i < copies.len() ==> same_value_in(#[trigger] copies[i], value)
                    &&& (final(self).graph.graph@, final(self).decl.proxies_out@) == #[trigger] reset_all(
                        old(self).graph.graph@,
                        old(self).decl.proxies_out@,
                        to@,
                        copies,
                    )
                },
            wf(final(self).graph.graph@),
            kinds_kept(old(self).graph.graph@, final(self).graph.graph@),
            final(self).decl.proxies_out@.len() == old(self).decl.proxies_out@.len(),
            final(self).decl.control == old(self).decl.control,
            final(self).decl.proxies_in == old(self).decl.proxies_in,
            final(self).graph.pins == old(self).graph.pins,
            final(self).graph.description == old(self).graph.description,
    {
        let ghost m0 = self.graph.graph@;
        let ghost p0 = self.decl.proxies_out@;
        let ghost mut copies: Seq<ValueIn> = Seq::empty();
        let mut i: usize = 0;
        while i < to.len()
            invariant
                i <= to@.len(),
                wf(self.graph.graph@),
                kinds_kept(m0, self.graph.graph@),
                self.decl.proxies_out@.len() == p0.len(),
                forall|j: int| 0 <= j < to@.len() ==> reset_ok(m0, p0.len() as int, #[trigger] to@[j], value),
                copies.len() == i,
                forall|j: int| 0 <= j < copies.len() ==> same_value_in(#[trigger] copies[j], value),
                (self.graph.graph@, self.decl.proxies_out@) == reset_all(m0, p0, to@.subrange(0, i as int), copies),
                self.decl.control == old(self).decl.control,
                self.decl.proxies_in == old(self).decl.proxies_in,
                self.graph.pins == old(self).graph.pins,
                self.graph.description == old(self).graph.description,
            decreases to@.len() - i,
        {
            let v = copy_value_in(&value);
            let t = to[i];
            let ghost before = self.graph.graph@;
            proof {
                assert(reset_ok(m0, p0.len() as int, to@[i as int], value));
                lemma_reset_ok_kept(m0, before, p0.len() as int, t, value, v);
                lemma_reset_kinds_kept(before, self.decl.proxies_out@, t, v);
            }
            let ghost gv = v;
            self.reset_value(t, v);
            proof {
                let after = self.graph.graph@;
                assert forall|k: usize| #[trigger] m0.dom().contains(k) implies {
                    &&& after[k].controls_in.len() == m0[k].controls_in.len()
                    &&& after[k].controls_out.len() == m0[k].controls_out.len()
                    &&& after[k].values_in.len() == m0[k].values_in.len()
                    &&& after[k].values_out.len() == m0[k].values_out.len()
                    &&& after[k].kind == m0[k].kind
                } by {
                    assert(before.dom().contains(k));
                }
                let c2 = copies.push(gv);
                assert(c2.drop_last() =~= copies);
                assert(to@.subrange(0, i + 1).drop_last() =~= to@.subrange(0, i as int));
                copies = c2;
            }
            i = i + 1;
        }
        proof {
            assert(to@.subrange(0, to@.len() as int) =~= to@);
        }
    }
}

proof fn lemma_remove_kept(m: Map<usize, NodeView>, key: usize)
    ensures
        forall|k: usize| #[trigger] remove_spec(m, key).dom().contains(k) <==> m.dom().contains(k) && k != key,
        forall|k: usize|
            m.dom().contains(k) && k != key ==> {
                &&& (#[trigger] remove_spec(m, key)[k]).kind == m[k].kind
                &&& remove_spec(m, key)[k].controls_in.len() == m[k].controls_in.len()
                &&& remove_spec(m, key)[k].controls_out.len() == m[k].controls_out.len()
                &&& remove_spec(m, key)[k].values_in.len() == m[k].values_in.len()
                &&& remove_spec(m, key)[k].values_out.len() == m[k].values_out.len()
            },
{
}

proof fn lemma_reset_ok_removed(m: Map<usize, NodeView>, key: usize, proxies: int, to: Link, value: ValueIn)
    requires
        reset_ok(m, proxies, to, value),
        !touches(to, key),
        !(value.link matches Some(l) && touches(l, key)),
    ensures
        reset_ok(remove_spec(m, key), proxies, to, value),
{
    lemma_remove_kept(m, key);
    let m2 = remove_spec(m, key);
    match to {
        Link::Connection(t) => {
            assert(m2.dom().contains(t.0.0));
            assert(m2[t.0.0] == strip_node(m[t.0.0], key));
            match value.link {
                Some(Link::Connection(c)) => {
                    assert(m2.dom().contains(c.0.0));
                    assert(m2[c.0.0] == strip_node(m[c.0.0], key));
                },
                _ => {},
            }
        },
        Link::Export(t) => {
            match value.link {
                Some(Link::Connection(c)) => {
                    assert(m2.dom().contains(c.0.0));
                    assert(m2[c.0.0] == strip_node(m[c.0.0], key));
                },
                _ => {},
            }
        },
    }
}

/// The id of the boolean negation node of the game.
pub open spec fn not_id() -> NodeId {
    NodeId::Low { kind: AssetKind::SysCallStub, id: 229 }
}

/// A node is a negation: the id and implementation of the game's.
pub open spec fn is_not(k: NodeKind) -> bool {
    k.id == not_id() && k.kernel_id == 229
}

/// A variable can be dropped where nothing refers to it: what reads its
/// value can then take its initial value directly.
pub open spec fn local_ready(m: Map<usize, NodeView>, key: usize, proxies: int) -> bool {
    let n = m[key];
    n.kind.id == NodeId::Local ==> {
        &&& n.values_out.len() >= 1
        &&& n.values_out[0].len() == 0 ==> {
            &&& n.values_out.len() >= 2
            &&& n.values_in.len() >= 1
            &&& no_self_links(n, key)
            &&& forall|t: int|
                0 <= t < n.values_out[1].len() ==> reset_ok(m, proxies, #[trigger] n.values_out[1][t], n.values_in[0])
        }
    }
}

/// The node whose output input 0 of node `key` takes, if a node's.
pub open spec fn input_source(m: Map<usize, NodeView>, key: usize) -> usize {
    m[key].values_in[0].link->0->Connection_0.0.0
}

/// A double negation can be skipped: what reads it can take what the
/// inner negation reads.
pub open spec fn not_not_ready(m: Map<usize, NodeView>, key: usize, proxies: int) -> bool {
    let n = m[key];
    is_not(n.kind) ==> {
        &&& n.values_in.len() >= 1
        &&& (n.values_in[0].link matches Some(Link::Connection(_)) && is_not(m[input_source(m, key)].kind)) ==> {
            let inner = m[input_source(m, key)];
            &&& inner.values_in.len() >= 1
            &&& n.values_out.len() >= 1
            &&& forall|t: int|
                0 <= t < n.values_out[0].len() ==> reset_ok(m, proxies, #[trigger] n.values_out[0][t], inner.values_in[0])
        }
    }
}

impl Optimizer {
    /// Drops the variable `node` if nothing refers to it: what read its
    /// value takes its initial value instead. Returns `None` then,
    /// `Some(())` if it is kept.
    pub fn eliminate_local(&mut self, node: NodeRef) -> (r: Option<()>)
        requires
            wf(old(self).graph.graph@),
            old(self).graph.graph@.dom().contains(node.0),
            local_ready(old(self).graph.graph@, node.0, old(self).decl.proxies_out@.len() as int),
        ensures
            ({
                let m = old(self).graph.graph@;
                let n = m[node.0];
                if n.kind.id == NodeId::Local && n.values_out[0].len() == 0 {
                    &&& r is None
                    &&& exists|copies: Seq<ValueIn>|
                        {
                            &&& copies.len() == n.values_out[1].len()
                            &&& forall|i: int| 0 <= i < copies.len() ==> same_value_in(#[trigger] copies[i], n.values_in[0])
                            &&& (final(self).graph.graph@, final(self).decl.proxies_out@) == #[trigger] reset_all(
                                remove_spec(m, node.0),
                                old(self).decl.proxies_out@,
                                n.values_out[1],
                                copies,
                            )
                        }
                } else {
                    &&& r is Some
                    &&& final(self).graph.graph@ == m
                    &&& final(self).decl.proxies_out == old(self).decl.proxies_out
                }
            }),
            wf(final(self).graph.graph@),
            final(self).decl.control == old(self).decl.control,
            final(self).decl.proxies_in == old(self).decl.proxies_in,
            final(self).graph.pins == old(self).graph.pins,
            final(self).graph.description == old(self).graph.description,
    {
        let ghost m = self.graph.graph@;
        let n = self.graph.graph.get_node(node);
        if n.kind.id == NodeId::Local && n.values_out[0].len() == 0 {
            proof {
                let nv = m[node.0];
                assert(nv.values_out[0] == n.values_out@[0]@);
                assert forall|t: int| 0 <= t < nv.values_out[1].len() implies reset_ok(
                    remove_spec(m, node.0),
                    self.decl.proxies_out@.len() as int,
                    #[trigger] nv.values_out[1][t],
                    nv.values_in[0],
                ) by {
                    assert(reset_ok(m, self.decl.proxies_out@.len() as int, nv.values_out[1][t], nv.values_in[0]));
                    lemma_reset_ok_removed(m, node.0, self.decl.proxies_out@.len() as int, nv.values_out[1][t], nv.values_in[0]);
                }
            }
            let mut n = self.graph.graph.remove(node);
            let ghost nv = n@;
            let value = n.values_in.remove(0);
            proof {
                assert(value == nv.values_in[0]);
                assert(nv.values_out[1] == n.values_out@[1]@);
            }
            self.reset_values(&n.values_out[1], value);
            None
        } else {
            Some(())
        }
    }
}

/// Holding the same content is transitive.
proof fn lemma_same_value_trans(a: AnyValue, b: AnyValue, c: AnyValue)
    requires
        same_value(a, b),
        same_value(b, c),
    ensures
        same_value(a, c),
    decreases a,
{
    match (a, b, c) {
        (AnyValue::Dict(x), AnyValue::Dict(y), AnyValue::Dict(z)) => {
            lemma_same_value_trans(x.key_type, y.key_type, z.key_type);
            lemma_same_value_trans(x.value_type, y.value_type, z.value_type);
            assert forall|i: int| 0 <= i < x.data@.len() implies same_value(#[trigger] x.data@[i].0, z.data@[i].0)
                && same_value(x.data@[i].1, z.data@[i].1) by {
                assert(same_value(x.data@[i].0, y.data@[i].0));
                assert(same_value(y.data@[i].0, z.data@[i].0));
                lemma_same_value_trans(x.data@[i].0, y.data@[i].0, z.data@[i].0);
                lemma_same_value_trans(x.data@[i].1, y.data@[i].1, z.data@[i].1);
            }
        },
        (AnyValue::Struct(x), AnyValue::Struct(y), AnyValue::Struct(z)) => {
            assert forall|i: int| 0 <= i < x.fields@.len() implies same_value(#[trigger] x.fields@[i], z.fields@[i]) by {
                assert(same_value(x.fields@[i], y.fields@[i]));
                assert(same_value(y.fields@[i], z.fields@[i]));
                lemma_same_value_trans(x.fields@[i], y.fields@[i], z.fields@[i]);
            }
        },
        _ => {
            lemma_same_value_variant(a, b);
            lemma_same_value_variant(b, c);
        },
    }
}

proof fn lemma_same_value_in_trans(a: ValueIn, b: ValueIn, c: ValueIn)
    requires
        same_value_in(a, b),
        same_value_in(b, c),
    ensures
        same_value_in(a, c),
{
    match (a.default, b.default, c.default) {
        (Some(x), Some(y), Some(z)) => lemma_same_value_trans(x, y, z),
        _ => {},
    }
}

impl Optimizer {
    /// Skips the double negation at `node`: what reads it takes what the
    /// inner negation reads. Returns `None` then, `Some(())` if nothing is
    /// done; the outer negation stays, unread.
    pub fn eliminate_not_not(&mut self, node: NodeRef) -> (r: Option<()>)
        requires
            wf(old(self).graph.graph@),
            old(self).graph.graph@.dom().contains(node.0),
            not_not_ready(old(self).graph.graph@, node.0, old(self).decl.proxies_out@.len() as int),
        ensures
            ({
                let m = old(self).graph.graph@;
                let n = m[node.0];
                if is_not(n.kind) && (n.values_in[0].link matches Some(Link::Connection(_))) && is_not(
                    m[input_source(m, node.0)].kind,
                ) {
                    &&& r is None
                    &&& exists|copies: Seq<ValueIn>|
                        {
                            &&& copies.len() == n.values_out[0].len()
                            &&& forall|i: int|
                                0 <= i < copies.len() ==> same_value_in(
                                    #[trigger] copies[i],
                                    m[input_source(m, node.0)].values_in[0],
                                )
                            &&& (final(self).graph.graph@, final(self).decl.proxies_out@) == #[trigger] reset_all(
                                m,
                                old(self).decl.proxies_out@,
                                n.values_out[0],
                                copies,
                            )
                        }
                } else {
                    &&& r is Some
                    &&& final(self).graph.graph@ == m
                    &&& final(self).decl.proxies_out == old(self).decl.proxies_out
                }
            }),
            wf(final(self).graph.graph@),
            final(self).decl.control == old(self).decl.control,
            final(self).decl.proxies_in == old(self).decl.proxies_in,
            final(self).graph.pins == old(self).graph.pins,
            final(self).graph.description == old(self).graph.description,
    {
        let ghost m = self.graph.graph@;
        let n = self.graph.graph.get_node(node);
        if !(n.kind.id == (NodeId::Low { kind: AssetKind::SysCallStub, id: 229 }) && n.kind.kernel_id == 229) {
            return Some(());
        }
        let from = match n.values_in[0].link {
            Some(Link::Connection(c)) => c,
            _ => {
                return Some(());
            },
        };
        proof {
            assert(value_in_ok(m, node.0, 0));
        }
        let inner = self.graph.graph.get_node(from.node());
        if !(inner.kind.id == (NodeId::Low { kind: AssetKind::SysCallStub, id: 229 }) && inner.kind.kernel_id == 229) {
            return Some(());
        }
        let outs = copy_all(&n.values_out[0]);
        let value = copy_value_in(&inner.values_in[0]);
        proof {
            assert(outs@ == m[node.0].values_out[0]);
            assert(inner.values_in@[0] == m[input_source(m, node.0)].values_in[0]);
            assert forall|t: int| 0 <= t < outs@.len() implies reset_ok(
                m,
                self.decl.proxies_out@.len() as int,
                #[trigger] outs@[t],
                value,
            ) by {
                assert(reset_ok(m, self.decl.proxies_out@.len() as int, outs@[t], inner.values_in@[0]));
                lemma_reset_ok_kept(m, m, self.decl.proxies_out@.len() as int, outs@[t], inner.values_in@[0], value);
            }
        }
        let ghost gv = value;
        self.reset_values(&outs, value);
        proof {
            let copies = choose|copies: Seq<ValueIn>|
                {
                    &&& copies.len() == outs@.len()
                    &&& forall|i: int| 0 <= i < copies.len() ==> same_value_in(#[trigger] copies[i], gv)
                    &&& (self.graph.graph@, self.decl.proxies_out@) == #[trigger] reset_all(
                        m,
                        old(self).decl.proxies_out@,
                        outs@,
                        copies,
                    )
                };
            assert forall|i: int| 0 <= i < copies.len() implies same_value_in(
                #[trigger] copies[i],
                m[input_source(m, node.0)].values_in[0],
            ) by {
                lemma_same_value_in_trans(copies[i], gv, m[input_source(m, node.0)].values_in[0]);
            }
        }
        None
    }
}

/// Node `key` assembles a structure from exactly the fields that the
/// node splitting it produced, in order, of a type that accepts the
/// split one.
pub open spec fn reassembles(m: Map<usize, NodeView>, key: usize) -> bool {
    let n = m[key];
    let f = input_source(m, key);
    &&& n.kind.id == NodeId::Assemble
    &&& n.values_in.len() > 0
    &&& n.values_in[0].link matches Some(Link::Connection(_))
    &&& m[f].kind.id == NodeId::Destructure
    &&& instance_of(m[f].kind.values_in_types@[0]->0, n.kind.values_out_types@[0])
    &&& forall|i: int|
        0 <= i < n.values_in.len() ==> (#[trigger] n.values_in[i]).link == Some(
            Link::Connection(Connection(NodeRef(f), i as usize)),
        )
}

/// An assembly of what was just split can be skipped: what reads the
/// assembled structure can read the split one.
pub open spec fn assemble_ready(m: Map<usize, NodeView>, key: usize, proxies: int) -> bool {
    let n = m[key];
    let f = input_source(m, key);
    (n.kind.id == NodeId::Assemble && n.values_in.len() > 0 && (n.values_in[0].link matches Some(
        Link::Connection(_),
    )) && m[f].kind.id == NodeId::Destructure) ==> {
        &&& m[f].kind.values_in_types@.len() >= 1
        &&& m[f].kind.values_in_types@[0] is Some
        &&& n.kind.values_out_types@.len() >= 1
        &&& reassembles(m, key) ==> {
            &&& m[f].values_in.len() >= 1
            &&& n.values_out.len() >= 1
            &&& no_self_links(n, key)
            &&& !(m[f].values_in[0].link matches Some(l) && touches(l, key))
            &&& forall|t: int|
                0 <= t < n.values_out[0].len() ==> reset_ok(m, proxies, #[trigger] n.values_out[0][t], m[f].values_in[0])
        }
    }
}

impl Optimizer {
    /// Skips the assembly at `node` of what a split node produced: what
    /// read the assembled structure reads the split one. Returns `None`
    /// then, or for an assembly without fields (which stays), `Some(())`
    /// if nothing is done.
    pub fn eliminate_assemble(&mut self, node: NodeRef) -> (r: Option<()>)
        requires
            wf(old(self).graph.graph@),
            old(self).graph.graph@.dom().contains(node.0),
            assemble_ready(old(self).graph.graph@, node.0, old(self).decl.proxies_out@.len() as int),
        ensures
            ({
                let m = old(self).graph.graph@;
                let n = m[node.0];
                if n.kind.id == NodeId::Assemble && n.values_in.len() == 0 {
                    &&& r is None
                    &&& final(self).graph.graph@ == m
                    &&& final(self).decl.proxies_out == old(self).decl.proxies_out
                } else if reassembles(m, node.0) {
                    &&& r is None
                    &&& exists|copies: Seq<ValueIn>|
                        {
                            &&& copies.len() == n.values_out[0].len()
                            &&& forall|i: int|
                                0 <= i < copies.len() ==> same_value_in(
                                    #[trigger] copies[i],
                                    m[input_source(m, node.0)].values_in[0],
                                )
                            &&& (final(self).graph.graph@, final(self).decl.proxies_out@) == #[trigger] reset_all(
                                remove_spec(m, node.0),
                                old(self).decl.proxies_out@,
                                n.values_out[0],
                                copies,
                            )
                        }
                } else {
                    &&& r is Some
                    &&& final(self).graph.graph@ == m
                    &&& final(self).decl.proxies_out == old(self).decl.proxies_out
                }
            }),
            wf(final(self).graph.graph@),
            final(self).decl.control == old(self).decl.control,
            final(self).decl.proxies_in == old(self).decl.proxies_in,
            final(self).graph.pins == old(self).graph.pins,
            final(self).graph.description == old(self).graph.description,
    {
        let ghost m = self.graph.graph@;
        let n = self.graph.graph.get_node(node);
        if n.kind.id != NodeId::Assemble {
            return Some(());
        }
        if n.values_in.len() == 0 {
            return None;
        }
        let from = match n.values_in[0].link {
            Some(Link::Connection(c)) => c,
            _ => {
                return Some(());
            },
        };
        proof {
            assert(value_in_ok(m, node.0, 0));
        }
        let from_node = self.graph.graph.get_node(from.node());
        if from_node.kind.id != NodeId::Destructure {
            return Some(());
        }
        let accepts = match &from_node.kind.values_in_types[0] {
            Some(t) => t.is_instance(&n.kind.values_out_types[0]),
            None => {
                assert(false);
                false
            },
        };
        if !accepts {
            return Some(());
        }
        let mut i: usize = 0;
        while i < n.values_in.len()
            invariant
                i <= n@.values_in.len(),
                n@ == m[node.0],
                from == m[node.0].values_in[0].link->0->Connection_0,
                self.graph.graph@ == m,
                wf(m),
                self.decl.proxies_out == old(self).decl.proxies_out,
                self.decl.control == old(self).decl.control,
                self.decl.proxies_in == old(self).decl.proxies_in,
                self.graph.pins == old(self).graph.pins,
                self.graph.description == old(self).graph.description,
                forall|j: int|
                    0 <= j < i ==> (#[trigger] n@.values_in[j]).link == Some(
                        Link::Connection(Connection(NodeRef(from.0.0), j as usize)),
                    ),
            decreases n@.values_in.len() - i,
        {
            let same = match n.values_in[i].link {
                Some(Link::Connection(c)) => c.0.0 == from.0.0 && c.1 == i,
                _ => false,
            };
            if !same {
                return Some(());
            }
            i = i + 1;
        }
        let value = copy_value_in(&from_node.values_in[0]);
        proof {
            let f = input_source(m, node.0);
            assert(from_node.values_in@[0] == m[f].values_in[0]);
            assert(reassembles(m, node.0));
            let nv = m[node.0];
            assert forall|t: int| 0 <= t < nv.values_out[0].len() implies reset_ok(
                remove_spec(m, node.0),
                self.decl.proxies_out@.len() as int,
                #[trigger] nv.values_out[0][t],
                value,
            ) by {
                assert(reset_ok(m, self.decl.proxies_out@.len() as int, nv.values_out[0][t], m[f].values_in[0]));
                lemma_reset_ok_kept(m, m, self.decl.proxies_out@.len() as int, nv.values_out[0][t], m[f].values_in[0], value);
                lemma_reset_ok_removed(m, node.0, self.decl.proxies_out@.len() as int, nv.values_out[0][t], value);
            }
        }
        let n = self.graph.graph.remove(node);
        let ghost gv = value;
        proof {
            assert(n@.values_out[0] == n.values_out@[0]@);
        }
        self.reset_values(&n.values_out[0], value);
        proof {
            let f = input_source(m, node.0);
            let copies = choose|copies: Seq<ValueIn>|
                {
                    &&& copies.len() == n.values_out@[0]@.len()
                    &&& forall|i: int| 0 <= i < copies.len() ==> same_value_in(#[trigger] copies[i], gv)
                    &&& (self.graph.graph@, self.decl.proxies_out@) == #[trigger] reset_all(
                        remove_spec(m, node.0),
                        old(self).decl.proxies_out@,
                        n.values_out@[0]@,
                        copies,
                    )
                };
            assert forall|i: int| 0 <= i < copies.len() implies same_value_in(#[trigger] copies[i], m[f].values_in[0]) by {
                lemma_same_value_in_trans(copies[i], gv, m[f].values_in[0]);
            }
        }
        None
    }
}

/// The result of giving, for each list of `lists` in turn, each link of
/// the list the copy of the same place in `copies`.
pub open spec fn reset_lists(
    m: Map<usize, NodeView>,
    proxies: Seq<Option<ProxyOut>>,
    lists: Seq<Seq<Link>>,
    copies: Seq<Seq<ValueIn>>,
) -> (Map<usize, NodeView>, Seq<Option<ProxyOut>>)
    decreases lists.len(),
{
    if lists.len() == 0 {
        (m, proxies)
    } else {
        let prev = reset_lists(m, proxies, lists.drop_last(), copies.drop_last());
        reset_all(prev.0, prev.1, lists.last(), copies.last())
    }
}

/// Node `key` splits a structure that an assembling node just built.
pub open spec fn splits_assembled(m: Map<usize, NodeView>, key: usize) -> bool {
    let n = m[key];
    &&& n.kind.id == NodeId::Destructure
    &&& n.values_in[0].link matches Some(Link::Connection(_))
    &&& m[input_source(m, key)].kind.id == NodeId::Assemble
}

/// A split of what was just assembled can be skipped: what reads a field
/// can read what the assembly took for it.
pub open spec fn destructure_ready(m: Map<usize, NodeView>, key: usize, proxies: int) -> bool {
    let n = m[key];
    let f = input_source(m, key);
    n.kind.id == NodeId::Destructure ==> {
        &&& n.values_in.len() >= 1
        &&& splits_assembled(m, key) ==> {
            &&& n.values_out.len() <= m[f].values_in.len()
            &&& no_self_links(n, key)
            &&& forall|i: int|
                #![trigger n.values_out[i]]
                0 <= i < n.values_out.len() ==> {
                    &&& !(m[f].values_in[i].link matches Some(l) && touches(l, key))
                    &&& forall|t: int|
                        0 <= t < n.values_out[i].len() ==> reset_ok(
                            m,
                            proxies,
                            #[trigger] n.values_out[i][t],
                            m[f].values_in[i],
                        )
                }
        }
    }
}

/// Copies of the inputs, in order.
fn copy_inputs(v: &Vec<ValueIn>) -> (r: Vec<ValueIn>)
    ensures
        r@.len() == v@.len(),
        forall|i: int| 0 <= i < r@.len() ==> same_value_in(#[trigger] r@[i], v@[i]),
{
    let mut r: Vec<ValueIn> = Vec::new();
    let mut i: usize = 0;
    while i < v.len()
        invariant
            i <= v@.len(),
            r@.len() == i,
            forall|j: int| 0 <= j < i ==> same_value_in(#[trigger] r@[j], v@[j]),
        decreases v@.len() - i,
    {
        r.push(copy_value_in(&v[i]));
        i = i + 1;
    }
    r
}

impl Optimizer {
    /// Skips the split at `node` of what an assembling node built: what
    /// read a field reads what the assembly took for it. Returns `None`
    /// then, `Some(())` if nothing is done.
    pub fn eliminate_destructure(&mut self, node: NodeRef) -> (r: Option<()>)
        requires
            wf(old(self).graph.graph@),
            old(self).graph.graph@.dom().contains(node.0),
            destructure_ready(old(self).graph.graph@, node.0, old(self).decl.proxies_out@.len() as int),
        ensures
            ({
                let m = old(self).graph.graph@;
                let n = m[node.0];
                let f = input_source(m, node.0);
                if splits_assembled(m, node.0) {
                    &&& r is None
                    &&& exists|copies: Seq<Seq<ValueIn>>|
                        {
                            &&& copies.len() == n.values_out.len()
                            &&& forall|i: int|
                                0 <= i < copies.len() ==> (#[trigger] copies[i]).len() == n.values_out[i].len()
                            &&& forall|i: int, j: int|
                                0 <= i < copies.len() && 0 <= j < copies[i].len() ==> same_value_in(
                                    #[trigger] copies[i][j],
                                    m[f].values_in[i],
                                )
                            &&& (final(self).graph.graph@, final(self).decl.proxies_out@) == #[trigger] reset_lists(
                                remove_spec(m, node.0),
                                old(self).decl.proxies_out@,
                                n.values_out,
                                copies,
                            )
                        }
                } else {
                    &&& r is Some
                    &&& final(self).graph.graph@ == m
                    &&& final(self).decl.proxies_out == old(self).decl.proxies_out
                }
            }),
            wf(final(self).graph.graph@),
            final(self).decl.control == old(self).decl.control,
            final(self).decl.proxies_in == old(self).decl.proxies_in,
            final(self).graph.pins == old(self).graph.pins,
            final(self).graph.description == old(self).graph.description,
    {
        let ghost m = self.graph.graph@;
        let ghost p0 = self.decl.proxies_out@;
        let n = self.graph.graph.get_node(node);
        if n.kind.id != NodeId::Destructure {
            return Some(());
        }
        let from = match n.values_in[0].link {
            Some(Link::Connection(c)) => c,
            _ => {
                return Some(());
            },
        };
        proof {
            assert(value_in_ok(m, node.0, 0));
        }
        let from_node = self.graph.graph.get_node(from.node());
        if from_node.kind.id != NodeId::Assemble {
            return Some(());
        }
        let from_values = copy_inputs(&from_node.values_in);
        let ghost f = from.0.0;
        let ghost m1 = remove_spec(m, node.0);
        let ghost lists = m[node.0].values_out;
        proof {
            assert(f == input_source(m, node.0));
            assert(from_node.values_in@ == m[f].values_in);
        }
        let n = self.graph.graph.remove(node);
        proof {
            assert(n@.values_out == lists);
        }
        let ghost mut copies: Seq<Seq<ValueIn>> = Seq::empty();
        let mut i: usize = 0;
        while i < n.values_out.len()
            invariant
                i <= lists.len(),
                n@.values_out == lists,
                lists == m[node.0].values_out,
                f == input_source(m, node.0),
                m1 == remove_spec(m, node.0),
                p0 == old(self).decl.proxies_out@,
                destructure_ready(m, node.0, p0.len() as int),
                splits_assembled(m, node.0),
                from_values@.len() == m[f].values_in.len(),
                forall|j: int| 0 <= j < from_values@.len() ==> same_value_in(#[trigger] from_values@[j], m[f].values_in[j]),
                wf(self.graph.graph@),
                kinds_kept(m1, self.graph.graph@),
                self.decl.proxies_out@.len() == p0.len(),
                copies.len() == i,
                forall|a: int| 0 <= a < i ==> (#[trigger] copies[a]).len() == lists[a].len(),
                forall|a: int, b: int|
                    0 <= a < i && 0 <= b < copies[a].len() ==> same_value_in(#[trigger] copies[a][b], m[f].values_in[a]),
                (self.graph.graph@, self.decl.proxies_out@) == reset_lists(m1, p0, lists.subrange(0, i as int), copies),
                self.decl.control == old(self).decl.control,
                self.decl.proxies_in == old(self).decl.proxies_in,
                self.graph.pins == old(self).graph.pins,
                self.graph.description == old(self).graph.description,
            decreases lists.len() - i,
        {
            let v = copy_value_in(&from_values[i]);
            let ghost before = self.graph.graph@;
            proof {
                let nv = m[node.0];
                lemma_same_value_in_trans(v, from_values@[i as int], m[f].values_in[i as int]);
                assert(n.values_out@[i as int]@ == lists[i as int]);
                assert forall|t: int| 0 <= t < lists[i as int].len() implies reset_ok(
                    before,
                    p0.len() as int,
                    #[trigger] lists[i as int][t],
                    v,
                ) by {
                    assert(reset_ok(m, p0.len() as int, nv.values_out[i as int][t], m[f].values_in[i as int]));
                    lemma_reset_ok_removed(m, node.0, p0.len() as int, lists[i as int][t], m[f].values_in[i as int]);
                    lemma_reset_ok_kept(m1, before, p0.len() as int, lists[i as int][t], m[f].values_in[i as int], v);
                }
            }
            let ghost gv = v;
            let ghost pbefore = self.decl.proxies_out@;
            self.reset_values(&n.values_out[i], v);
            proof {
                let row = choose|row: Seq<ValueIn>|
                    {
                        &&& row.len() == n.values_out@[i as int]@.len()
                        &&& forall|b: int| 0 <= b < row.len() ==> same_value_in(#[trigger] row[b], gv)
                        &&& (self.graph.graph@, self.decl.proxies_out@) == #[trigger] reset_all(
                            before,
                            pbefore,
                            n.values_out@[i as int]@,
                            row,
                        )
                    };
                assert forall|b: int| 0 <= b < row.len() implies same_value_in(#[trigger] row[b], m[f].values_in[i as int]) by {
                    lemma_same_value_in_trans(row[b], gv, m[f].values_in[i as int]);
                }
                lemma_pins_kept_trans(m1, before, self.graph.graph@);
                assert forall|k: usize| #[trigger] m1.dom().contains(k) implies self.graph.graph@[k].kind == m1[k].kind by {
                    assert(before.dom().contains(k));
                }
                let c2 = copies.push(row);
                assert(c2.drop_last() =~= copies);
                assert(lists.subrange(0, i + 1).drop_last() =~= lists.subrange(0, i as int));
                assert(c2[i as int] == row);
                copies = c2;
            }
            i = i + 1;
        }
        proof {
            assert(lists.subrange(0, lists.len() as int) =~= lists);
        }
        None
    }
}

/// A node is the integer equality of the game.
pub open spec fn eq_int_kind(k: NodeKind) -> bool {
    k.id == (NodeId::Low { kind: AssetKind::SysCallStub, id: 14 }) && k.kernel_id == 370
}

/// A node is the game's conversion of a boolean to an integer.
pub open spec fn bool_to_int_kind(k: NodeKind) -> bool {
    k.id == (NodeId::Low { kind: AssetKind::SysCallStub, id: 180 }) && k.kernel_id == 185
}

/// The operand of a comparison that is looked at as linked: the first
/// input, unless it is unlinked.
pub open spec fn eq_linked(n: NodeView) -> ValueIn {
    if n.values_in[0].link is None {
        n.values_in[1]
    } else {
        n.values_in[0]
    }
}

/// The other operand of a comparison.
pub open spec fn eq_other(n: NodeView) -> ValueIn {
    if n.values_in[0].link is None {
        n.values_in[0]
    } else {
        n.values_in[1]
    }
}

/// The constant a comparison compares with: the other operand's integer,
/// 0 where it holds none.
pub open spec fn eq_constant(n: NodeView) -> int {
    match eq_other(n).default {
        Some(AnyValue::Int(i)) => i.0 as int,
        _ => 0,
    }
}

/// The node whose output the linked operand of comparison `key` reads.
pub open spec fn converted_source(m: Map<usize, NodeView>, key: usize) -> usize {
    eq_linked(m[key]).link->0->Connection_0.0.0
}

/// Node `key` compares with a constant an integer converted from a
/// boolean.
pub open spec fn compares_converted_bool(m: Map<usize, NodeView>, key: usize) -> bool {
    let n = m[key];
    &&& eq_int_kind(n.kind)
    &&& eq_other(n).link is None
    &&& eq_linked(n).link matches Some(Link::Connection(_))
    &&& bool_to_int_kind(m[converted_source(m, key)].kind)
}

/// The constant false, unlinked.
pub open spec fn false_value() -> ValueIn {
    ValueIn { default: Some(AnyValue::Bool(ValueBool(false))), link: None }
}

/// `from` can be the input of a new negation: a boolean value, and a
/// link from an output whose type meets a boolean.
pub open spec fn negatable(m: Map<usize, NodeView>, from: ValueIn) -> bool {
    &&& from.default matches Some(v) ==> instance_of(bool_type(), v)
    &&& from.link matches Some(Link::Connection(c)) ==> {
        let out = m[c.0.0].kind.values_out_types@[c.1 as int];
        instance_of(bool_type(), out) || instance_of(out, bool_type())
    }
}

/// A comparison of a converted boolean with a constant can be replaced:
/// its readers accept what replaces it.
pub open spec fn bool_eq_int_ready(m: Map<usize, NodeView>, key: usize, proxies: int) -> bool {
    let n = m[key];
    eq_int_kind(n.kind) ==> {
        &&& n.values_in.len() >= 2
        &&& (eq_other(n).link is None && (eq_linked(n).link matches Some(Link::Connection(_))) && bool_to_int_kind(
            m[converted_source(m, key)].kind,
        )) ==> {
            let src = m[converted_source(m, key)];
            &&& src.values_in.len() >= 1
            &&& n.values_out.len() >= 1
            &&& eq_other(n).default matches Some(v) ==> v is Int
            &&& eq_constant(n) == 0 ==> negatable(m, src.values_in[0])
            &&& forall|t: int|
                0 <= t < n.values_out[0].len() ==> reset_ok(
                    m,
                    proxies,
                    #[trigger] n.values_out[0][t],
                    if eq_constant(n) == 1 {
                        src.values_in[0]
                    } else {
                        false_value()
                    },
                )
        }
    }
}

/// The input that reads output 0 of node `k`.
pub open spec fn reads(k: usize) -> ValueIn {
    ValueIn { default: None, link: Some(Link::Connection(Connection(NodeRef(k), 0))) }
}

impl Optimizer {
    /// Replaces the comparison at `node` of a converted boolean `b` with a
    /// constant: what read it reads `!b` (a new negation) for 0, `b` for
    /// 1, and false otherwise. Returns `None` then, `Some(())` if nothing
    /// is done; the comparison stays, unread. It panics on a constant that
    /// is not an integer.
    pub fn eliminate_bool_eq_int(&mut self, node: NodeRef) -> (r: Option<()>)
        requires
            wf(old(self).graph.graph@),
            old(self).graph.graph@.dom().contains(node.0),
            bool_eq_int_ready(old(self).graph.graph@, node.0, old(self).decl.proxies_out@.len() as int),
        ensures
            ({
                let m = old(self).graph.graph@;
                let p = old(self).decl.proxies_out@;
                let n = m[node.0];
                let src = m[converted_source(m, node.0)];
                let to = n.values_out[0];
                if compares_converted_bool(m, node.0) {
                    &&& r is None
                    &&& eq_constant(n) == 0 ==> exists|k: usize, nv: NodeView, fc: ValueIn, copies: Seq<ValueIn>|
                        {
                            &&& !m.dom().contains(k)
                            &&& fresh(nv)
                            &&& is_not(nv.kind)
                            &&& nv.kind.values_in_types@ == seq![Some(bool_type())]
                            &&& nv.kind.values_out_types@ == seq![bool_type()]
                            &&& same_value_in(fc, src.values_in[0])
                            &&& copies.len() == to.len()
                            &&& forall|i: int| 0 <= i < copies.len() ==> same_value_in(#[trigger] copies[i], reads(k))
                            &&& (final(self).graph.graph@, final(self).decl.proxies_out@) == #[trigger] reset_all(
                                set_value_in_spec(m.insert(k, nv), Connection(NodeRef(k), 0), fc),
                                p,
                                to,
                                copies,
                            )
                        }
                    &&& eq_constant(n) == 1 ==> exists|copies: Seq<ValueIn>|
                        {
                            &&& copies.len() == to.len()
                            &&& forall|i: int| 0 <= i < copies.len() ==> same_value_in(#[trigger] copies[i], src.values_in[0])
                            &&& (final(self).graph.graph@, final(self).decl.proxies_out@) == #[trigger] reset_all(m, p, to, copies)
                        }
                    &&& (eq_constant(n) != 0 && eq_constant(n) != 1) ==> exists|copies: Seq<ValueIn>|
                        {
                            &&& copies.len() == to.len()
                            &&& forall|i: int| 0 <= i < copies.len() ==> same_value_in(#[trigger] copies[i], false_value())
                            &&& (final(self).graph.graph@, final(self).decl.proxies_out@) == #[trigger] reset_all(m, p, to, copies)
                        }
                } else {
                    &&& r is Some
                    &&& final(self).graph.graph@ == m
                    &&& final(self).decl.proxies_out == old(self).decl.proxies_out
                }
            }),
            wf(final(self).graph.graph@),
            final(self).decl.control == old(self).decl.control,
            final(self).decl.proxies_in == old(self).decl.proxies_in,
            final(self).graph.pins == old(self).graph.pins,
            final(self).graph.description == old(self).graph.description,
    {
        let ghost m = self.graph.graph@;
        let ghost p = self.decl.proxies_out@;
        let n = self.graph.graph.get_node(node);
        if !(n.kind.id == (NodeId::Low { kind: AssetKind::SysCallStub, id: 14 }) && n.kind.kernel_id == 370) {
            return Some(());
        }
        let first_unlinked = n.values_in[0].link.is_none();
        let linked_index: usize = if first_unlinked {
            1
        } else {
            0
        };
        let other_index: usize = if first_unlinked {
            0
        } else {
            1
        };
        if n.values_in[other_index].link.is_some() {
            return Some(());
        }
        let src_key = match n.values_in[linked_index].link {
            Some(Link::Connection(c)) => c.0,
            _ => {
                return Some(());
            },
        };
        proof {
            assert(value_in_ok(m, node.0, linked_index as int));
        }
        let n1 = self.graph.graph.get_node(src_key);
        if !(n1.kind.id == (NodeId::Low { kind: AssetKind::SysCallStub, id: 180 }) && n1.kind.kernel_id == 185) {
            return Some(());
        }
        let ghost nv0 = m[node.0];
        let ghost srcv = m[src_key.0];
        proof {
            assert(compares_converted_bool(m, node.0));
            assert(converted_source(m, node.0) == src_key.0);
            assert(n.values_out@[0]@ == nv0.values_out[0]);
        }
        let from = copy_value_in(&n1.values_in[0]);
        let to = copy_all(&n.values_out[0]);
        let constant: i32 = match &n.values_in[other_index].default {
            Some(AnyValue::Int(i)) => i.0,
            Some(_) => {
                assert(false);
                0
            },
            None => 0,
        };
        proof {
            assert(constant == eq_constant(nv0));
            assert(to@ == nv0.values_out[0]);
        }
        if constant == 0 {
            let ghost fc = from;
            let not = self.graph.graph.insert(Node::new(node_not()));
            let ghost k = not.0;
            let ghost m1 = self.graph.graph@;
            let ghost nv = m1[k];
            proof {
                assert(value_in_ok(m, src_key.0, 0));
                match (fc.default, srcv.values_in[0].default) {
                    (Some(x), Some(y)) => lemma_same_value_instance(bool_type(), x, y),
                    _ => {},
                }
                assert forall|x: usize| m.dom().contains(x) implies #[trigger] m1[x] == m[x] by {
                    assert(x != k);
                }
                assert(m1.dom() == m.dom().insert(k));
            }
            self.graph.graph.set_value_in(Connection(not, 0), from);
            let ghost m2 = self.graph.graph@;
            proof {
                lemma_set_value_in_kept(m1, Connection(not, 0), fc);
                assert forall|t: int| 0 <= t < to@.len() implies reset_ok(
                    m2,
                    p.len() as int,
                    #[trigger] to@[t],
                    reads(k),
                ) by {
                    assert(reset_ok(m, p.len() as int, nv0.values_out[0][t], false_value()));
                    match to@[t] {
                        Link::Connection(c) => {
                            assert(m.dom().contains(c.0.0));
                            assert(m1[c.0.0] == m[c.0.0]);
                            assert(m1.dom().contains(c.0.0));
                        },
                        _ => {},
                    }
                    assert(m1.dom().contains(k));
                }
            }
            let v = ValueIn::link(Link::Connection(Connection(not, 0)));
            assert(v == reads(k));
            self.reset_values(&to, v);
            proof {
                let copies = choose|copies: Seq<ValueIn>|
                    {
                        &&& copies.len() == to@.len()
                        &&& forall|i: int| 0 <= i < copies.len() ==> same_value_in(#[trigger] copies[i], reads(k))
                        &&& (self.graph.graph@, self.decl.proxies_out@) == #[trigger] reset_all(m2, p, to@, copies)
                    };
                assert(m1 == m.insert(k, nv));
                assert(reset_all(set_value_in_spec(m.insert(k, nv), Connection(NodeRef(k), 0), fc), p, nv0.values_out[0], copies)
                    == (self.graph.graph@, self.decl.proxies_out@));
            }
        } else if constant == 1 {
            let ghost gv = from;
            proof {
                assert forall|t: int| 0 <= t < to@.len() implies reset_ok(m, p.len() as int, #[trigger] to@[t], gv) by {
                    assert(reset_ok(m, p.len() as int, nv0.values_out[0][t], srcv.values_in[0]));
                    lemma_reset_ok_kept(m, m, p.len() as int, to@[t], srcv.values_in[0], gv);
                }
            }
            self.reset_values(&to, from);
            proof {
                let copies = choose|copies: Seq<ValueIn>|
                    {
                        &&& copies.len() == to@.len()
                        &&& forall|i: int| 0 <= i < copies.len() ==> same_value_in(#[trigger] copies[i], gv)
                        &&& (self.graph.graph@, self.decl.proxies_out@) == #[trigger] reset_all(m, p, to@, copies)
                    };
                assert forall|i: int| 0 <= i < copies.len() implies same_value_in(#[trigger] copies[i], srcv.values_in[0]) by {
                    lemma_same_value_in_trans(copies[i], gv, srcv.values_in[0]);
                }
            }
        } else {
            let v = ValueIn::value(AnyValue::Bool(ValueBool(false)));
            assert(v == false_value());
            proof {
                assert forall|t: int| 0 <= t < to@.len() implies reset_ok(m, p.len() as int, #[trigger] to@[t], v) by {
                    assert(reset_ok(m, p.len() as int, nv0.values_out[0][t], false_value()));
                }
            }
            self.reset_values(&to, v);
        }
        None
    }
}

// ---------------------------------------------------------------------------
// Laws.
// ---------------------------------------------------------------------------

/// Control flows from `from` to `to` in `m`: each node end lists the
/// other end.
pub open spec fn linked(m: Map<usize, NodeView>, from: Link, to: Link) -> bool {
    match (from, to) {
        (Link::Connection(f), Link::Connection(t)) => {
            &&& m[f.0.0].controls_out[f.1 as int].contains(to)
            &&& m[t.0.0].controls_in[t.1 as int].contains(from)
        },
        (Link::Connection(f), Link::Export(_)) => m[f.0.0].controls_out[f.1 as int].contains(to),
        (Link::Export(_), Link::Connection(t)) => m[t.0.0].controls_in[t.1 as int].contains(from),
        (Link::Export(_), Link::Export(_)) => true,
    }
}

/// Control links are only added: every link of the first graph is in the
/// second, whose nodes have the same pins.
pub open spec fn links_grow(m: Map<usize, NodeView>, m2: Map<usize, NodeView>) -> bool {
    &&& pins_kept(m, m2)
    &&& forall|k: usize, j: int, x: Link|
        m.dom().contains(k) && 0 <= j < m[k].controls_out.len() && m[k].controls_out[j].contains(x)
            ==> #[trigger] m2[k].controls_out[j].contains(x)
    &&& forall|k: usize, j: int, x: Link|
        m.dom().contains(k) && 0 <= j < m[k].controls_in.len() && m[k].controls_in[j].contains(x)
            ==> #[trigger] m2[k].controls_in[j].contains(x)
}

proof fn lemma_push_contains(s: Seq<Link>, l: Link, x: Link)
    ensures
        s.push(l).contains(l),
        s.contains(x) ==> s.push(l).contains(x),
{
    assert(s.push(l)[s.len() as int] == l);
    if s.contains(x) {
        let t = choose|t: int| 0 <= t < s.len() && s[t] == x;
        assert(s.push(l)[t] == x);
    }
}

proof fn lemma_links_grow_trans(m: Map<usize, NodeView>, m2: Map<usize, NodeView>, m3: Map<usize, NodeView>)
    requires
        links_grow(m, m2),
        links_grow(m2, m3),
    ensures
        links_grow(m, m3),
{
    lemma_pins_kept_trans(m, m2, m3);
    assert forall|k: usize, j: int, x: Link|
        m.dom().contains(k) && 0 <= j < m[k].controls_out.len() && m[k].controls_out[j].contains(x)
            implies #[trigger] m3[k].controls_out[j].contains(x) by {
        assert(m2[k].controls_out[j].contains(x));
    }
    assert forall|k: usize, j: int, x: Link|
        m.dom().contains(k) && 0 <= j < m[k].controls_in.len() && m[k].controls_in[j].contains(x)
            implies #[trigger] m3[k].controls_in[j].contains(x) by {
        assert(m2[k].controls_in[j].contains(x));
    }
}

proof fn lemma_linked_kept(m: Map<usize, NodeView>, m2: Map<usize, NodeView>, from: Link, to: Link)
    requires
        links_grow(m, m2),
        relink_ok(m, from, to),
        linked(m, from, to),
    ensures
        linked(m2, from, to),
{
}

proof fn lemma_relink_links(m: Map<usize, NodeView>, control: bool, from: Link, to: Link)
    requires
        relink_ok(m, from, to),
    ensures
        links_grow(m, relink_spec(m, control, from, to).0),
        linked(relink_spec(m, control, from, to).0, from, to),
        relink_spec(m, control, from, to).1 == (control && !(from is Export && to is Export)),
{
    let m2 = relink_spec(m, control, from, to).0;
    match (from, to) {
        (Link::Connection(f), Link::Connection(t)) => {
            let m1 = m.insert(f.0.0, with_control_out(m[f.0.0], f.1 as int, to));
            assert(m2 == m1.insert(t.0.0, with_control_in(m1[t.0.0], t.1 as int, from)));
            assert(m2.dom() =~= m.dom());
            lemma_push_contains(m[f.0.0].controls_out[f.1 as int], to, to);
            lemma_push_contains(m[t.0.0].controls_in[t.1 as int], from, from);
            assert forall|k: usize, j: int, x: Link|
                m.dom().contains(k) && 0 <= j < m[k].controls_out.len() && m[k].controls_out[j].contains(x)
                    implies #[trigger] m2[k].controls_out[j].contains(x) by {
                lemma_push_contains(m[k].controls_out[j], to, x);
            }
            assert forall|k: usize, j: int, x: Link|
                m.dom().contains(k) && 0 <= j < m[k].controls_in.len() && m[k].controls_in[j].contains(x)
                    implies #[trigger] m2[k].controls_in[j].contains(x) by {
                lemma_push_contains(m[k].controls_in[j], from, x);
            }
        },
        (Link::Connection(f), Link::Export(_)) => {
            assert(m2.dom() =~= m.dom());
            lemma_push_contains(m[f.0.0].controls_out[f.1 as int], to, to);
            assert forall|k: usize, j: int, x: Link|
                m.dom().contains(k) && 0 <= j < m[k].controls_out.len() && m[k].controls_out[j].contains(x)
                    implies #[trigger] m2[k].controls_out[j].contains(x) by {
                lemma_push_contains(m[k].controls_out[j], to, x);
            }
        },
        (Link::Export(_), Link::Connection(t)) => {
            assert(m2.dom() =~= m.dom());
            lemma_push_contains(m[t.0.0].controls_in[t.1 as int], from, from);
            assert forall|k: usize, j: int, x: Link|
                m.dom().contains(k) && 0 <= j < m[k].controls_in.len() && m[k].controls_in[j].contains(x)
                    implies #[trigger] m2[k].controls_in[j].contains(x) by {
                lemma_push_contains(m[k].controls_in[j], from, x);
            }
        },
        (Link::Export(_), Link::Export(_)) => {},
    }
}

proof fn lemma_relink_row_links(m: Map<usize, NodeView>, control: bool, from: Link, tos: Seq<Link>)
    requires
        forall|j: int| 0 <= j < tos.len() ==> relink_ok(m, from, #[trigger] tos[j]),
    ensures
        links_grow(m, relink_row(m, control, from, tos).0),
        forall|j: int| 0 <= j < tos.len() ==> linked(relink_row(m, control, from, tos).0, from, #[trigger] tos[j]),
        relink_row(m, control, from, tos).1 == (control && !(from is Export && exists|j: int|
            0 <= j < tos.len() && (#[trigger] tos[j]) is Export)),
    decreases tos.len(),
{
    if tos.len() == 0 {
        assert(links_grow(m, m));
    } else {
        let rest = tos.drop_last();
        assert forall|j: int| 0 <= j < rest.len() implies relink_ok(m, from, #[trigger] rest[j]) by {
            assert(rest[j] == tos[j]);
        }
        lemma_relink_row_links(m, control, from, rest);
        let prev = relink_row(m, control, from, rest);
        assert(relink_ok(m, from, tos[tos.len() - 1]));
        lemma_relink_ok_kept(m, prev.0, from, tos.last());
        lemma_relink_links(prev.0, prev.1, from, tos.last());
        lemma_links_grow_trans(m, prev.0, relink_row(m, control, from, tos).0);
        assert forall|j: int| 0 <= j < tos.len() implies linked(relink_row(m, control, from, tos).0, from, #[trigger] tos[j]) by {
            if j < rest.len() {
                assert(rest[j] == tos[j]);
                assert(relink_ok(m, from, tos[j]));
                lemma_relink_ok_kept(m, prev.0, from, tos[j]);
                lemma_linked_kept(prev.0, relink_row(m, control, from, tos).0, from, tos[j]);
            }
        }
        if from is Export {
            if exists|j: int| 0 <= j < rest.len() && (#[trigger] rest[j]) is Export {
                let j = choose|j: int| 0 <= j < rest.len() && (#[trigger] rest[j]) is Export;
                assert(tos[j] == rest[j]);
            }
            if exists|j: int| 0 <= j < tos.len() && (#[trigger] tos[j]) is Export {
                let j = choose|j: int| 0 <= j < tos.len() && (#[trigger] tos[j]) is Export;
                if j < rest.len() {
                    assert(rest[j] == tos[j]);
                }
            }
        }
    }
}

proof fn lemma_relink_all_links(m: Map<usize, NodeView>, control: bool, froms: Seq<Link>, tos: Seq<Link>)
    requires
        all_relink_ok(m, froms, tos),
    ensures
        links_grow(m, relink_all(m, control, froms, tos).0),
        forall|i: int, j: int|
            0 <= i < froms.len() && 0 <= j < tos.len() ==> linked(
                relink_all(m, control, froms, tos).0,
                #[trigger] froms[i],
                #[trigger] tos[j],
            ),
        relink_all(m, control, froms, tos).1 == (control && !(exists|i: int, j: int|
            0 <= i < froms.len() && 0 <= j < tos.len() && (#[trigger] froms[i]) is Export && (
            #[trigger] tos[j]) is Export)),
    decreases froms.len(),
{
    if froms.len() == 0 {
        assert(links_grow(m, m));
    } else {
        let rest = froms.drop_last();
        let f = froms.last();
        assert(all_relink_ok(m, rest, tos)) by {
            assert forall|i: int, j: int| 0 <= i < rest.len() && 0 <= j < tos.len() implies relink_ok(
                m,
                #[trigger] rest[i],
                #[trigger] tos[j],
            ) by {
                assert(rest[i] == froms[i]);
            }
        }
        lemma_relink_all_links(m, control, rest, tos);
        let prev = relink_all(m, control, rest, tos);
        let result = relink_all(m, control, froms, tos);
        assert forall|j: int| 0 <= j < tos.len() implies relink_ok(prev.0, f, #[trigger] tos[j]) by {
            assert(relink_ok(m, froms[froms.len() - 1], tos[j]));
            lemma_relink_ok_kept(m, prev.0, f, tos[j]);
        }
        lemma_relink_row_links(prev.0, prev.1, f, tos);
        lemma_links_grow_trans(m, prev.0, result.0);
        assert forall|i: int, j: int| 0 <= i < froms.len() && 0 <= j < tos.len() implies linked(
            result.0,
            #[trigger] froms[i],
            #[trigger] tos[j],
        ) by {
            if i < rest.len() {
                assert(rest[i] == froms[i]);
                assert(linked(prev.0, rest[i], tos[j]));
                assert(relink_ok(m, froms[i], tos[j]));
                lemma_relink_ok_kept(m, prev.0, froms[i], tos[j]);
                lemma_linked_kept(prev.0, result.0, froms[i], tos[j]);
            }
        }
        let both = exists|i: int, j: int|
            0 <= i < froms.len() && 0 <= j < tos.len() && (#[trigger] froms[i]) is Export && (#[trigger] tos[j]) is Export;
        let both_rest = exists|i: int, j: int|
            0 <= i < rest.len() && 0 <= j < tos.len() && (#[trigger] rest[i]) is Export && (#[trigger] tos[j]) is Export;
        let last = f is Export && exists|j: int| 0 <= j < tos.len() && (#[trigger] tos[j]) is Export;
        assert(both == (both_rest || last)) by {
            if both {
                let (i, j) = choose|i: int, j: int|
                    0 <= i < froms.len() && 0 <= j < tos.len() && (#[trigger] froms[i]) is Export && (#[trigger] tos[j]) is Export;
                if i < rest.len() {
                    assert(rest[i] == froms[i]);
                }
            }
            if both_rest {
                let (i, j) = choose|i: int, j: int|
                    0 <= i < rest.len() && 0 <= j < tos.len() && (#[trigger] rest[i]) is Export && (#[trigger] tos[j]) is Export;
                assert(froms[i] == rest[i]);
            }
            if last {
                let j = choose|j: int| 0 <= j < tos.len() && (#[trigger] tos[j]) is Export;
                assert(froms[froms.len() - 1] == f);
            }
        }
    }
}

/// Bypassing a node removes it, keeps every other node, and leads
/// control that reached the chosen input to everything that the chosen
/// output reached; the function loses its control pins exactly where its
/// interface input reached the node and the node's output reached its
/// interface output.
pub proof fn lemma_bypass_links(m: Map<usize, NodeView>, control: bool, key: usize, i: int, j: int)
    requires
        wf(m),
        m.dom().contains(key),
        bypass_ok(m, key, i, j),
    ensures
        bypass_spec(m, control, key, i, j).0.dom() == m.dom().remove(key),
        forall|a: int, b: int|
            0 <= a < m[key].controls_in[i].len() && 0 <= b < m[key].controls_out[j].len() ==> linked(
                bypass_spec(m, control, key, i, j).0,
                #[trigger] m[key].controls_in[i][a],
                #[trigger] m[key].controls_out[j][b],
            ),
        bypass_spec(m, control, key, i, j).1 == (control && !(exists|a: int, b: int|
            0 <= a < m[key].controls_in[i].len() && 0 <= b < m[key].controls_out[j].len()
                && (#[trigger] m[key].controls_in[i][a]) is Export && (
            #[trigger] m[key].controls_out[j][b]) is Export)),
{
    lemma_bypass_relink_ok(m, key, i, j);
    lemma_relink_all_links(remove_spec(m, key), control, m[key].controls_in[i], m[key].controls_out[j]);
    lemma_remove_kept(m, key);
    assert(remove_spec(m, key).dom() =~= m.dom().remove(key));
}

} // verus!

verus! {

// ---------------------------------------------------------------------------
// Pruning the interface.
// ---------------------------------------------------------------------------

/// Value input `i` of node `k` is linked to input `j` of the interface.
pub open spec fn input_links_to(m: Map<usize, NodeView>, k: usize, i: int, j: usize) -> bool {
    m[k].values_in[i].link == Some(Link::Export(j))
}

/// Link `t` of value output `p` of node `k` goes to output `j` of the
/// interface.
pub open spec fn output_links_to(m: Map<usize, NodeView>, k: usize, p: int, t: int, j: usize) -> bool {
    m[k].values_out[p][t] == Link::Export(j)
}

/// Some node's value input is linked to input `j` of the interface.
pub open spec fn input_used(m: Map<usize, NodeView>, j: usize) -> bool {
    exists|k: usize, i: int|
        m.dom().contains(k) && 0 <= i < m[k].values_in.len() && #[trigger] input_links_to(m, k, i, j)
}

/// Some node's value output goes to output `j` of the interface.
pub open spec fn output_used(m: Map<usize, NodeView>, j: usize) -> bool {
    exists|k: usize, p: int, t: int|
        m.dom().contains(k) && 0 <= p < m[k].values_out.len() && 0 <= t < m[k].values_out[p].len()
            && #[trigger] output_links_to(m, k, p, t, j)
}

/// Every interface input that a node's value input is linked to is below
/// `n`.
pub open spec fn inputs_below(m: Map<usize, NodeView>, n: int) -> bool {
    forall|k: usize, i: int, j: usize|
        m.dom().contains(k) && 0 <= i < m[k].values_in.len() && #[trigger] input_links_to(m, k, i, j)
            ==> j < n
}

/// Every interface output that a node's value output goes to is below `n`.
pub open spec fn outputs_below(m: Map<usize, NodeView>, n: int) -> bool {
    forall|k: usize, p: int, t: int, j: usize|
        m.dom().contains(k) && 0 <= p < m[k].values_out.len() && 0 <= t < m[k].values_out[p].len()
            && #[trigger] output_links_to(m, k, p, t, j) ==> j < n
}

/// How many entries of `s` are true.
pub open spec fn count_true(s: Seq<bool>) -> nat
    decreases s.len(),
{
    if s.len() == 0 {
        0
    } else {
        count_true(s.drop_last()) + if s.last() {
            1nat
        } else {
            0nat
        }
    }
}

/// The new number of each pin once the pins that are not `active` are
/// dropped: the number of active pins before it.
pub open spec fn ranks(active: Seq<bool>) -> Seq<usize> {
    Seq::new(active.len(), |j: int| count_true(active.take(j)) as usize)
}

/// The entries of `s` whose place is `active`, in order.
pub open spec fn kept<T>(s: Seq<T>, active: Seq<bool>) -> Seq<T>
    decreases s.len(),
{
    if s.len() == 0 {
        Seq::empty()
    } else {
        let r = kept(s.drop_last(), active);
        if active[s.len() - 1] {
            r.push(s.last())
        } else {
            r
        }
    }
}

proof fn lemma_count_true_bound(s: Seq<bool>)
    ensures
        count_true(s) <= s.len(),
    decreases s.len(),
{
    if s.len() > 0 {
        lemma_count_true_bound(s.drop_last());
    }
}

/// Which of the interface inputs below `n` some node's value input is
/// linked to.
fn inputs_in_use(m: &NodeGraph, n: usize) -> (r: Vec<bool>)
    requires
        inputs_below(m@, n as int),
    ensures
        r@ == Seq::new(n as nat, |j: int| input_used(m@, j as usize)),
{
    let mut r: Vec<bool> = Vec::new();
    while r.len() < n
        invariant
            r.len() <= n,
            forall|j: int| 0 <= j < r@.len() ==> !r@[j],
        decreases n - r.len(),
    {
        r.push(false);
    }
    let keys = m.get_nodes();
    let mut idx: usize = 0;
    while idx < keys.len()
        invariant
            inputs_below(m@, n as int),
            r@.len() == n,
            idx <= keys@.len(),
            forall|k: usize| m@.dom().contains(k) <==> keys@.contains(NodeRef(k)),
            forall|j: int|
                0 <= j < n ==> (r@[j] <==> exists|a: int, i: int|
                    0 <= a < idx && 0 <= i < m@[keys@[a].0].values_in.len() && #[trigger] input_links_to(
                        m@,
                        keys@[a].0,
                        i,
                        j as usize,
                    )),
        decreases keys@.len() - idx,
    {
        let k = keys[idx];
        assert(keys@.contains(k));
        let node = m.get_node(k);
        let mut i: usize = 0;
        while i < node.values_in.len()
            invariant
                inputs_below(m@, n as int),
                r@.len() == n,
                idx < keys@.len(),
                k == keys@[idx as int],
                m@.dom().contains(k.0),
                node@ == m@[k.0],
                i <= node.values_in@.len(),
                forall|j: int|
                    0 <= j < n ==> (r@[j] <==> (exists|a: int, i2: int|
                        0 <= a < idx && 0 <= i2 < m@[keys@[a].0].values_in.len() && #[trigger] input_links_to(
                            m@,
                            keys@[a].0,
                            i2,
                            j as usize,
                        )) || (exists|i2: int| 0 <= i2 < i && #[trigger] input_links_to(m@, k.0, i2, j as usize))),
            decreases node.values_in@.len() - i,
        {
            if let Some(Link::Export(e)) = node.values_in[i].link {
                assert(input_links_to(m@, k.0, i as int, e));
                r.set(e, true);
            }
            i = i + 1;
        }
        proof {
            assert forall|j: int|
                0 <= j < n implies (r@[j] <==> exists|a: int, i2: int|
                0 <= a < idx + 1 && 0 <= i2 < m@[keys@[a].0].values_in.len() && #[trigger] input_links_to(
                    m@,
                    keys@[a].0,
                    i2,
                    j as usize,
                )) by {
                if r@[j] {
                    if exists|i2: int| 0 <= i2 < node.values_in@.len() && #[trigger] input_links_to(m@, k.0, i2, j as usize) {
                        let i2 = choose|i2: int| 0 <= i2 < node.values_in@.len() && #[trigger] input_links_to(m@, k.0, i2, j as usize);
                        assert(input_links_to(m@, keys@[idx as int].0, i2, j as usize));
                    }
                }
            }
        }
        idx = idx + 1;
    }
    proof {
        assert forall|j: int| 0 <= j < n implies r@[j] == input_used(m@, j as usize) by {
            if input_used(m@, j as usize) {
                let (k, i) = choose|k: usize, i: int|
                    m@.dom().contains(k) && 0 <= i < m@[k].values_in.len() && #[trigger] input_links_to(m@, k, i, j as usize);
                assert(keys@.contains(NodeRef(k)));
                let a = choose|a: int| 0 <= a < keys@.len() && keys@[a] == NodeRef(k);
                assert(input_links_to(m@, keys@[a].0, i, j as usize));
            }
            if r@[j] {
                let (a, i) = choose|a: int, i: int|
                    0 <= a < keys@.len() && 0 <= i < m@[keys@[a].0].values_in.len() && #[trigger] input_links_to(
                        m@,
                        keys@[a].0,
                        i,
                        j as usize,
                    );
                assert(keys@.contains(keys@[a]));
            }
        }
        assert(r@ =~= Seq::new(n as nat, |j: int| input_used(m@, j as usize)));
    }
    r
}


/// Which of the interface outputs below `n` some node's value output goes
/// to.
fn outputs_in_use(m: &NodeGraph, n: usize) -> (r: Vec<bool>)
    requires
        outputs_below(m@, n as int),
    ensures
        r@ == Seq::new(n as nat, |j: int| output_used(m@, j as usize)),
{
    let mut r: Vec<bool> = Vec::new();
    while r.len() < n
        invariant
            r.len() <= n,
            forall|j: int| 0 <= j < r@.len() ==> !r@[j],
        decreases n - r.len(),
    {
        r.push(false);
    }
    let keys = m.get_nodes();
    let mut idx: usize = 0;
    while idx < keys.len()
        invariant
            outputs_below(m@, n as int),
            r@.len() == n,
            idx <= keys@.len(),
            forall|k: usize| m@.dom().contains(k) <==> keys@.contains(NodeRef(k)),
            forall|j: int|
                0 <= j < n ==> (r@[j] <==> exists|a: int, p: int, t: int|
                    0 <= a < idx && 0 <= p < m@[keys@[a].0].values_out.len() && 0 <= t
                        < m@[keys@[a].0].values_out[p].len() && #[trigger] output_links_to(
                        m@,
                        keys@[a].0,
                        p,
                        t,
                        j as usize,
                    )),
        decreases keys@.len() - idx,
    {
        let k = keys[idx];
        assert(keys@.contains(k));
        let node = m.get_node(k);
        let mut p: usize = 0;
        while p < node.values_out.len()
            invariant
                outputs_below(m@, n as int),
                r@.len() == n,
                idx < keys@.len(),
                k == keys@[idx as int],
                m@.dom().contains(k.0),
                node@ == m@[k.0],
                p <= node.values_out@.len(),
                forall|j: int|
                    0 <= j < n ==> (r@[j] <==> (exists|a: int, p2: int, t: int|
                        0 <= a < idx && 0 <= p2 < m@[keys@[a].0].values_out.len() && 0 <= t
                            < m@[keys@[a].0].values_out[p2].len() && #[trigger] output_links_to(
                            m@,
                            keys@[a].0,
                            p2,
                            t,
                            j as usize,
                        )) || (exists|p2: int, t: int|
                        0 <= p2 < p && 0 <= t < m@[k.0].values_out[p2].len() && #[trigger] output_links_to(
                            m@,
                            k.0,
                            p2,
                            t,
                            j as usize,
                        ))),
            decreases node.values_out@.len() - p,
        {
            let list = &node.values_out[p];
            assert(list@ == m@[k.0].values_out[p as int]);
            let mut t: usize = 0;
            while t < list.len()
                invariant
                    outputs_below(m@, n as int),
                    r@.len() == n,
                    idx < keys@.len(),
                    k == keys@[idx as int],
                    m@.dom().contains(k.0),
                    node@ == m@[k.0],
                    p < node.values_out@.len(),
                    list@ == m@[k.0].values_out[p as int],
                    t <= list@.len(),
                    forall|j: int|
                        0 <= j < n ==> (r@[j] <==> (exists|a: int, p2: int, t2: int|
                            0 <= a < idx && 0 <= p2 < m@[keys@[a].0].values_out.len() && 0 <= t2
                                < m@[keys@[a].0].values_out[p2].len() && #[trigger] output_links_to(
                                m@,
                                keys@[a].0,
                                p2,
                                t2,
                                j as usize,
                            )) || (exists|p2: int, t2: int|
                            0 <= p2 < p && 0 <= t2 < m@[k.0].values_out[p2].len() && #[trigger] output_links_to(
                                m@,
                                k.0,
                                p2,
                                t2,
                                j as usize,
                            )) || (exists|t2: int| 0 <= t2 < t && #[trigger] output_links_to(m@, k.0, p as int, t2, j as usize))),
                decreases list@.len() - t,
            {
                if let Link::Export(e) = list[t] {
                    assert(output_links_to(m@, k.0, p as int, t as int, e));
                    r.set(e, true);
                }
                t = t + 1;
            }
            proof {
                assert forall|j: int|
                    0 <= j < n implies (r@[j] <==> (exists|a: int, p2: int, t2: int|
                    0 <= a < idx && 0 <= p2 < m@[keys@[a].0].values_out.len() && 0 <= t2
                        < m@[keys@[a].0].values_out[p2].len() && #[trigger] output_links_to(
                        m@,
                        keys@[a].0,
                        p2,
                        t2,
                        j as usize,
                    )) || (exists|p2: int, t2: int|
                    0 <= p2 < p + 1 && 0 <= t2 < m@[k.0].values_out[p2].len() && #[trigger] output_links_to(
                        m@,
                        k.0,
                        p2,
                        t2,
                        j as usize,
                    ))) by {
                    if exists|t2: int| 0 <= t2 < list@.len() && #[trigger] output_links_to(m@, k.0, p as int, t2, j as usize) {
                        let t2 = choose|t2: int| 0 <= t2 < list@.len() && #[trigger] output_links_to(m@, k.0, p as int, t2, j as usize);
                        assert(output_links_to(m@, k.0, p as int, t2, j as usize));
                    }
                    if exists|p2: int, t2: int|
                        0 <= p2 < p + 1 && 0 <= t2 < m@[k.0].values_out[p2].len() && #[trigger] output_links_to(
                            m@,
                            k.0,
                            p2,
                            t2,
                            j as usize,
                        ) {
                        let (p2, t2) = choose|p2: int, t2: int|
                            0 <= p2 < p + 1 && 0 <= t2 < m@[k.0].values_out[p2].len() && #[trigger] output_links_to(
                                m@,
                                k.0,
                                p2,
                                t2,
                                j as usize,
                            );
                        if p2 == p {
                            assert(output_links_to(m@, k.0, p as int, t2, j as usize));
                        } else {
                            assert(output_links_to(m@, k.0, p2, t2, j as usize));
                        }
                    }
                }
            }
            p = p + 1;
        }
        proof {
            assert forall|j: int|
                0 <= j < n implies (r@[j] <==> exists|a: int, p2: int, t2: int|
                0 <= a < idx + 1 && 0 <= p2 < m@[keys@[a].0].values_out.len() && 0 <= t2
                    < m@[keys@[a].0].values_out[p2].len() && #[trigger] output_links_to(
                    m@,
                    keys@[a].0,
                    p2,
                    t2,
                    j as usize,
                )) by {
                if exists|p2: int, t2: int|
                    0 <= p2 < node.values_out@.len() && 0 <= t2 < m@[k.0].values_out[p2].len()
                        && #[trigger] output_links_to(m@, k.0, p2, t2, j as usize) {
                    let (p2, t2) = choose|p2: int, t2: int|
                        0 <= p2 < node.values_out@.len() && 0 <= t2 < m@[k.0].values_out[p2].len()
                            && #[trigger] output_links_to(m@, k.0, p2, t2, j as usize);
                    assert(output_links_to(m@, keys@[idx as int].0, p2, t2, j as usize));
                }
            }
        }
        idx = idx + 1;
    }
    proof {
        assert forall|j: int| 0 <= j < n implies r@[j] == output_used(m@, j as usize) by {
            if output_used(m@, j as usize) {
                let (k, p, t) = choose|k: usize, p: int, t: int|
                    m@.dom().contains(k) && 0 <= p < m@[k].values_out.len() && 0 <= t
                        < m@[k].values_out[p].len() && #[trigger] output_links_to(m@, k, p, t, j as usize);
                assert(keys@.contains(NodeRef(k)));
                let a = choose|a: int| 0 <= a < keys@.len() && keys@[a] == NodeRef(k);
                assert(output_links_to(m@, keys@[a].0, p, t, j as usize));
            }
            if r@[j] {
                let (a, p, t) = choose|a: int, p: int, t: int|
                    0 <= a < keys@.len() && 0 <= p < m@[keys@[a].0].values_out.len() && 0 <= t
                        < m@[keys@[a].0].values_out[p].len() && #[trigger] output_links_to(
                        m@,
                        keys@[a].0,
                        p,
                        t,
                        j as usize,
                    );
                assert(keys@.contains(keys@[a]));
            }
        }
        assert(r@ =~= Seq::new(n as nat, |j: int| output_used(m@, j as usize)));
    }
    r
}


/// The new number of each pin; see `ranks`.
fn ranks_of(active: &Vec<bool>) -> (r: Vec<usize>)
    ensures
        r@ == ranks(active@),
{
    let mut r: Vec<usize> = Vec::new();
    let mut count: usize = 0;
    let mut j: usize = 0;
    while j < active.len()
        invariant
            j <= active@.len(),
            count == count_true(active@.take(j as int)),
            r@.len() == j,
            forall|a: int| 0 <= a < j ==> r@[a] == count_true(active@.take(a)) as usize,
        decreases active@.len() - j,
    {
        proof {
            assert(active@.take(j + 1).drop_last() =~= active@.take(j as int));
            lemma_count_true_bound(active@.take(j + 1));
        }
        r.push(count);
        if active[j] {
            count = count + 1;
        }
        j = j + 1;
    }
    assert(r@ =~= ranks(active@));
    r
}

/// The names whose place is `active`, in order.
fn keep_names(names: &Vec<String>, active: &Vec<bool>) -> (r: Vec<String>)
    requires
        names@.len() <= active@.len(),
    ensures
        r@ == kept(names@, active@),
{
    let mut r: Vec<String> = Vec::new();
    let mut j: usize = 0;
    while j < names.len()
        invariant
            names@.len() <= active@.len(),
            j <= names@.len(),
            r@ == kept(names@.take(j as int), active@),
        decreases names@.len() - j,
    {
        assert(names@.take(j + 1).drop_last() =~= names@.take(j as int));
        if active[j] {
            r.push(names[j].clone());
        }
        j = j + 1;
    }
    assert(names@.take(names@.len() as int) =~= names@);
    r
}

/// The inputs whose place is `active`, in order.
fn keep_proxies(proxies: &Vec<usize>, active: &Vec<bool>) -> (r: Vec<usize>)
    requires
        proxies@.len() <= active@.len(),
    ensures
        r@ == kept(proxies@, active@),
{
    let mut r: Vec<usize> = Vec::new();
    let mut j: usize = 0;
    while j < proxies.len()
        invariant
            proxies@.len() <= active@.len(),
            j <= proxies@.len(),
            r@ == kept(proxies@.take(j as int), active@),
        decreases proxies@.len() - j,
    {
        assert(proxies@.take(j + 1).drop_last() =~= proxies@.take(j as int));
        if active[j] {
            r.push(proxies[j]);
        }
        j = j + 1;
    }
    assert(proxies@.take(proxies@.len() as int) =~= proxies@);
    r
}

impl Optimizer {
    /// Drops the pins of the function's interface that no node links to
    /// once the graph has been simplified, and renumbers the rest in their
    /// order: an interface input stays if some node's value input is linked
    /// to it, and with it its name and the input it stands for; an interface
    /// output stays, with its name, if some node's value output goes to it.
    /// The outputs that no node provides are kept as they were. This is the
    /// step that ends an optimization.
    pub fn prune_interface(&mut self)
        requires
            inputs_below(old(self).graph.graph@, old(self).decl.proxies_in@.len() as int),
            outputs_below(old(self).graph.graph@, old(self).decl.proxies_out@.len() as int),
            old(self).graph.pins.in_value@.len() <= old(self).decl.proxies_in@.len(),
            old(self).graph.pins.out_value@.len() <= old(self).decl.proxies_out@.len(),
        ensures
            ({
                let m = old(self).graph.graph@;
                let ins = Seq::new(old(self).decl.proxies_in@.len(), |j: int| input_used(m, j as usize));
                let outs = Seq::new(old(self).decl.proxies_out@.len(), |j: int| output_used(m, j as usize));
                &&& final(self).graph.graph@ == renumber_spec(m, ranks(ins), ranks(outs))
                &&& final(self).graph.pins.in_value@ == kept(old(self).graph.pins.in_value@, ins)
                &&& final(self).graph.pins.out_value@ == kept(old(self).graph.pins.out_value@, outs)
                &&& final(self).decl.proxies_in@ == kept(old(self).decl.proxies_in@, ins)
            }),
            wf(old(self).graph.graph@) ==> wf(final(self).graph.graph@),
            final(self).graph.pins.in_control == old(self).graph.pins.in_control,
            final(self).graph.pins.out_control == old(self).graph.pins.out_control,
            final(self).graph.description == old(self).graph.description,
            final(self).graph.graph.class == old(self).graph.graph.class,
            final(self).graph.graph.name == old(self).graph.graph.name,
            final(self).decl.control == old(self).decl.control,
            final(self).decl.proxies_out == old(self).decl.proxies_out,
    {
        let ins = inputs_in_use(&self.graph.graph, self.decl.proxies_in.len());
        let outs = outputs_in_use(&self.graph.graph, self.decl.proxies_out.len());
        let rin = ranks_of(&ins);
        let rout = ranks_of(&outs);
        self.graph.graph.renumber_exports(&rin, &rout);
        self.graph.pins.in_value = keep_names(&self.graph.pins.in_value, &ins);
        self.graph.pins.out_value = keep_names(&self.graph.pins.out_value, &outs);
        self.decl.proxies_in = keep_proxies(&self.decl.proxies_in, &ins);
    }
}


proof fn lemma_count_step(s: Seq<bool>, a: int)
    requires
        0 <= a < s.len(),
    ensures
        count_true(s.take(a + 1)) == count_true(s.take(a)) + if s[a] {
            1nat
        } else {
            0nat
        },
{
    assert(s.take(a + 1).drop_last() =~= s.take(a));
}

proof fn lemma_count_mono(s: Seq<bool>, a: int, b: int)
    requires
        0 <= a <= b <= s.len(),
    ensures
        count_true(s.take(a)) <= count_true(s.take(b)),
    decreases b - a,
{
    if a < b {
        lemma_count_mono(s, a, b - 1);
        lemma_count_step(s, b - 1);
    }
}

/// Every number below the count of active places is the rank of an active
/// place.
proof fn lemma_rank_onto(s: Seq<bool>, r: int)
    requires
        0 <= r < count_true(s),
    ensures
        exists|j: int| 0 <= j < s.len() && s[j] && count_true(s.take(j)) == r,
    decreases s.len(),
{
    let d = s.drop_last();
    assert(s.take(s.len() - 1) =~= d);
    if r < count_true(d) {
        lemma_rank_onto(d, r);
        let j = choose|j: int| 0 <= j < d.len() && d[j] && count_true(d.take(j)) == r;
        assert(d.take(j) =~= s.take(j));
        assert(s[j]);
    } else {
        assert(s.last());
        assert(s[s.len() - 1] && count_true(s.take(s.len() - 1)) == r);
    }
}

/// Pruning leaves a dense interface: the nodes link only to the inputs
/// and outputs that are kept, and every one of them is linked to by some
/// node. Here `n_in` and `n_out` are the numbers of inputs and outputs
/// before pruning.
pub proof fn lemma_pruned_interface_dense(m: Map<usize, NodeView>, n_in: usize, n_out: usize)
    requires
        inputs_below(m, n_in as int),
        outputs_below(m, n_out as int),
    ensures
        ({
            let ins = Seq::new(n_in as nat, |j: int| input_used(m, j as usize));
            let outs = Seq::new(n_out as nat, |j: int| output_used(m, j as usize));
            let m2 = renumber_spec(m, ranks(ins), ranks(outs));
            &&& inputs_below(m2, count_true(ins) as int)
            &&& outputs_below(m2, count_true(outs) as int)
            &&& forall|j: usize| j < count_true(ins) ==> input_used(m2, j)
            &&& forall|j: usize| j < count_true(outs) ==> output_used(m2, j)
        }),
{
    let ins = Seq::new(n_in as nat, |j: int| input_used(m, j as usize));
    let outs = Seq::new(n_out as nat, |j: int| output_used(m, j as usize));
    let ri = ranks(ins);
    let ro = ranks(outs);
    let m2 = renumber_spec(m, ri, ro);
    assert forall|k: usize, i: int, j: usize|
        m2.dom().contains(k) && 0 <= i < m2[k].values_in.len() && #[trigger] input_links_to(m2, k, i, j)
            implies j < count_true(ins) by {
        assert(m.dom().contains(k));
        assert(m2[k].values_in[i] == renumbered_input(m[k].values_in[i], ri));
        match m[k].values_in[i].link {
            Some(Link::Export(e)) => {
                assert(input_links_to(m, k, i, e));
                assert(e < n_in);
                assert(j == ri[e as int]);
                assert(ins[e as int]);
                lemma_count_mono(ins, e + 1, ins.len() as int);
                lemma_count_step(ins, e as int);
                assert(ins.take(ins.len() as int) =~= ins);
            },
            _ => {},
        }
    }
    assert forall|k: usize, p: int, t: int, j: usize|
        m2.dom().contains(k) && 0 <= p < m2[k].values_out.len() && 0 <= t < m2[k].values_out[p].len()
            && #[trigger] output_links_to(m2, k, p, t, j) implies j < count_true(outs) by {
        assert(m.dom().contains(k));
        assert(m2[k].values_out[p] == m[k].values_out[p].map_values(|l: Link| renumbered(l, ro)));
        assert(m2[k].values_out[p][t] == renumbered(m[k].values_out[p][t], ro));
        match m[k].values_out[p][t] {
            Link::Export(e) => {
                assert(output_links_to(m, k, p, t, e));
                assert(e < n_out);
                assert(j == ro[e as int]);
                assert(outs[e as int]);
                lemma_count_mono(outs, e + 1, outs.len() as int);
                lemma_count_step(outs, e as int);
                assert(outs.take(outs.len() as int) =~= outs);
            },
            _ => {},
        }
    }
    assert forall|r: usize| r < count_true(ins) implies input_used(m2, r) by {
        assert(ins.take(ins.len() as int) =~= ins);
        lemma_rank_onto(ins, r as int);
        let j = choose|j: int| 0 <= j < ins.len() && ins[j] && count_true(ins.take(j)) == r;
        assert(input_used(m, j as usize));
        let (k, i) = choose|k: usize, i: int|
            m.dom().contains(k) && 0 <= i < m[k].values_in.len() && #[trigger] input_links_to(m, k, i, j as usize);
        assert(m2[k].values_in[i] == renumbered_input(m[k].values_in[i], ri));
        assert(ri[j] == r);
        assert((j as usize) as int == j);
        assert(m[k].values_in[i].link == Some(Link::Export(j as usize)));
        assert(renumbered(Link::Export(j as usize), ri) == Link::Export(r));
        assert(input_links_to(m2, k, i, r));
    }
    assert forall|r: usize| r < count_true(outs) implies output_used(m2, r) by {
        assert(outs.take(outs.len() as int) =~= outs);
        lemma_rank_onto(outs, r as int);
        let j = choose|j: int| 0 <= j < outs.len() && outs[j] && count_true(outs.take(j)) == r;
        assert(output_used(m, j as usize));
        let (k, p, t) = choose|k: usize, p: int, t: int|
            m.dom().contains(k) && 0 <= p < m[k].values_out.len() && 0 <= t < m[k].values_out[p].len()
                && #[trigger] output_links_to(m, k, p, t, j as usize);
        assert(m2[k].values_out[p] == m[k].values_out[p].map_values(|l: Link| renumbered(l, ro)));
        assert(m2[k].values_out[p][t] == renumbered(m[k].values_out[p][t], ro));
        assert(ro[j] == r);
        assert((j as usize) as int == j);
        assert(renumbered(Link::Export(j as usize), ro) == Link::Export(r));
        assert(output_links_to(m2, k, p, t, r));
    }
}

} // verus!
