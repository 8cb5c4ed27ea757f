//! Per-region hyperedge bookkeeping: deferred port registration,
//! value-alias merging, and cross-scope ordering-edge insertion.
//!
//! Nodes are created in any convenient order; each incoming or outgoing
//! port is registered against its hyperedge value, and the edges are drawn
//! only when the region resolves. A value may be merged into one appearing
//! earlier, which redirects its present and future registrations - this is
//! how structurally transparent operations vanish from the output.

use vstd::prelude::*;
use vstd::map::*;
use crate::alist::{distinct_keys, lemma_map_of_dom, lemma_map_of_index, map_of, AList};
use crate::graph::{Graph, NodeId, OrderEdge};

verus! {

/// One registered port: a node and a port index on it.
#[derive(Clone, Copy, Debug, PartialEq, Eq, Structural)]
pub struct PortRef {
    /// The node.
    pub node: NodeId,
    /// The port index, on the incoming or outgoing side as registered.
    pub port: usize,
}

/// The ghost state of a wiring context: deferred port registrations keyed
/// by canonical value, and the alias map.
pub ghost struct WiringView {
    /// Registered incoming ports, keyed by canonical value.
    pub inputs: Map<u32, Seq<PortRef>>,
    /// Registered outgoing ports, keyed by canonical value.
    pub outputs: Map<u32, Seq<PortRef>>,
    /// The value-alias map; every alias points to a strictly earlier value.
    pub alias: Map<u32, u32>,
}

/// Every alias points to a strictly earlier value, so alias chains are
/// acyclic and end within `v` steps from `v`.
pub open spec fn alias_wf(alias: Map<u32, u32>) -> bool {
    forall|k: u32| alias.contains_key(k) ==> #[trigger] alias[k] < k
}

/// Follow the alias chain from `v` for at most `fuel` steps.
pub open spec fn canon_r(alias: Map<u32, u32>, v: u32, fuel: nat) -> u32
    decreases fuel,
{
    if fuel == 0 {
        v
    } else if alias.contains_key(v) {
        canon_r(alias, alias[v], (fuel - 1) as nat)
    } else {
        v
    }
}

/// The canonical value of `v`: the end of its alias chain.
pub open spec fn canonical(alias: Map<u32, u32>, v: u32) -> u32 {
    canon_r(alias, v, v as nat + 1)
}

/// With a well-formed alias map, any fuel past `v` reaches the end of the
/// chain: a value that is no alias, no later than `v`.
pub proof fn lemma_canon_r_adequate(alias: Map<u32, u32>, v: u32, fuel: nat)
    requires
        alias_wf(alias),
        fuel > v,
    ensures
        !alias.contains_key(canon_r(alias, v, fuel)),
        canon_r(alias, v, fuel) <= v,
        canon_r(alias, v, fuel) == canonical(alias, v),
    decreases fuel,
{
    if alias.contains_key(v) {
        let w = alias[v];
        lemma_canon_r_adequate(alias, w, (fuel - 1) as nat);
        lemma_canon_r_adequate(alias, w, v as nat);
        lemma_canon_r_adequate(alias, w, (w + 1) as nat);
    }
}

/// The canonical value is no alias, and no later than `v`.
pub proof fn lemma_canonical_fixpoint(alias: Map<u32, u32>, v: u32)
    requires
        alias_wf(alias),
    ensures
        !alias.contains_key(canonical(alias, v)),
        canonical(alias, v) <= v,
{
    lemma_canon_r_adequate(alias, v, v as nat + 1);
}

/// One step along the alias chain keeps the canonical value.
pub proof fn lemma_canonical_step(alias: Map<u32, u32>, v: u32)
    requires
        alias_wf(alias),
        alias.contains_key(v),
    ensures
        canonical(alias, v) == canonical(alias, alias[v]),
{
    lemma_canon_r_adequate(alias, v, v as nat + 1);
    lemma_canon_r_adequate(alias, alias[v], v as nat);
}


/// Append a port to the list registered under `k`.
pub open spec fn push_port(m: Map<u32, Seq<PortRef>>, k: u32, p: PortRef) -> Map<
    u32,
    Seq<PortRef>,
> {
    let cur = if m.contains_key(k) {
        m[k]
    } else {
        Seq::empty()
    };
    m.insert(k, cur.push(p))
}

/// Append a list of ports to the list registered under `k`.
pub open spec fn push_ports(m: Map<u32, Seq<PortRef>>, k: u32, ps: Seq<PortRef>) -> Map<
    u32,
    Seq<PortRef>,
> {
    let cur = if m.contains_key(k) {
        m[k]
    } else {
        Seq::empty()
    };
    m.insert(k, cur + ps)
}

/// Move the ports registered under `from` to the end of `to`'s list.
pub open spec fn move_entry(m: Map<u32, Seq<PortRef>>, from: u32, to: u32) -> Map<
    u32,
    Seq<PortRef>,
> {
    if m.contains_key(from) {
        push_ports(m.remove(from), to, m[from])
    } else {
        m
    }
}

/// What registering an incoming port does to the context state.
pub open spec fn spec_register_input(w: WiringView, v: u32, p: PortRef) -> WiringView {
    WiringView { inputs: push_port(w.inputs, canonical(w.alias, v), p), ..w }
}

/// What registering an outgoing port does to the context state.
pub open spec fn spec_register_output(w: WiringView, v: u32, p: PortRef) -> WiringView {
    WiringView { outputs: push_port(w.outputs, canonical(w.alias, v), p), ..w }
}

/// What merging the values `a` and `b` does to the context state: their
/// canonical representatives become one. The later of the two
/// representatives is redirected into the earlier, whichever order the
/// arguments are given in, so alias chains stay strictly descending and
/// therefore acyclic.
pub open spec fn spec_merge(w: WiringView, a: u32, b: u32) -> WiringView {
    let ca = canonical(w.alias, a);
    let cb = canonical(w.alias, b);
    if ca == cb {
        w
    } else {
        let lo = if ca < cb {
            ca
        } else {
            cb
        };
        let hi = if ca < cb {
            cb
        } else {
            ca
        };
        WiringView {
            alias: w.alias.insert(hi, lo),
            inputs: move_entry(w.inputs, hi, lo),
            outputs: move_entry(w.outputs, hi, lo),
        }
    }
}

/// Registering ports under an alias behaves identically to registering
/// them directly under the value it stands for: once two values share a
/// canonical representative, the two registrations produce equal states.
pub proof fn lemma_alias_indifference(w: WiringView, a: u32, b: u32, p: PortRef)
    requires
        canonical(w.alias, a) == canonical(w.alias, b),
    ensures
        spec_register_input(w, a, p) == spec_register_input(w, b, p),
        spec_register_output(w, a, p) == spec_register_output(w, b, p),
{
}

/// Inserting the redirect `hi -> lo` - both canonical, `lo` the earlier -
/// sends every value whose chain ended at `hi` to `lo`, and leaves every
/// other value's canonical representative untouched.
pub proof fn lemma_canonical_redirect(alias: Map<u32, u32>, hi: u32, lo: u32, v: u32)
    requires
        alias_wf(alias),
        !alias.contains_key(hi),
        !alias.contains_key(lo),
        lo < hi,
    ensures
        alias_wf(alias.insert(hi, lo)),
        canonical(alias.insert(hi, lo), v) == (if canonical(alias, v) == hi {
            lo
        } else {
            canonical(alias, v)
        }),
    decreases v,
{
    let m2 = alias.insert(hi, lo);
    assert(alias_wf(m2));
    if alias.contains_key(v) {
        let w = alias[v];
        lemma_canonical_step(alias, v);
        lemma_canonical_step(m2, v);
        lemma_canonical_redirect(alias, hi, lo, w);
    } else if v == hi {
        lemma_canonical_step(m2, hi);
        assert(canonical(alias, hi) == hi);
        assert(canonical(m2, lo) == lo);
    } else {
        assert(canonical(alias, v) == v);
        assert(canonical(m2, v) == v);
    }
}

/// After a merge the two values share a canonical representative - the
/// earlier of their two - so by [`lemma_alias_indifference`] registering
/// under either coincides from then on; every unrelated value keeps its
/// own representative.
pub proof fn lemma_merge_aliases(w: WiringView, a: u32, b: u32)
    requires
        alias_wf(w.alias),
    ensures
        alias_wf(spec_merge(w, a, b).alias),
        canonical(spec_merge(w, a, b).alias, a) == canonical(spec_merge(w, a, b).alias, b),
        forall|v: u32|
            #![trigger canonical(spec_merge(w, a, b).alias, v)]
            canonical(spec_merge(w, a, b).alias, v) == (if canonical(w.alias, v) == canonical(
                w.alias,
                a,
            ) || canonical(w.alias, v) == canonical(w.alias, b) {
                if canonical(w.alias, a) < canonical(w.alias, b) {
                    canonical(w.alias, a)
                } else {
                    canonical(w.alias, b)
                }
            } else {
                canonical(w.alias, v)
            }),
{
    let ca = canonical(w.alias, a);
    let cb = canonical(w.alias, b);
    lemma_canonical_fixpoint(w.alias, a);
    lemma_canonical_fixpoint(w.alias, b);
    if ca == cb {
    } else {
        let lo = if ca < cb {
            ca
        } else {
            cb
        };
        let hi = if ca < cb {
            cb
        } else {
            ca
        };
        assert forall|v: u32|
            #[trigger] canonical(spec_merge(w, a, b).alias, v) == (if canonical(w.alias, v) == ca
                || canonical(w.alias, v) == cb {
                if ca < cb {
                    ca
                } else {
                    cb
                }
            } else {
                canonical(w.alias, v)
            }) by {
            lemma_canonical_redirect(w.alias, hi, lo, v);
            lemma_canonical_fixpoint(w.alias, v);
        }
        lemma_canonical_redirect(w.alias, hi, lo, a);
        lemma_canonical_redirect(w.alias, hi, lo, b);
    }
}

/// Every registered port points at a node below `n`.
pub open spec fn ports_bounded(m: Map<u32, Seq<PortRef>>, n: nat) -> bool {
    forall|k: u32, i: int|
        m.contains_key(k) && 0 <= i < m[k].len() ==> (#[trigger] m[k][i]).node < n
}

/// Per-region wiring context: deferred port registrations and value
/// aliases.
///
/// A context is created fresh for each region, seeded with the region's
/// boundary ports, filled during the single pass over the region's
/// operations, and fully resolved at region exit.
pub struct BuildContext {
    /// Registered incoming ports, keyed by canonical value.
    pub input_edges: AList<Vec<PortRef>>,
    /// Registered outgoing ports, keyed by canonical value.
    pub output_edges: AList<Vec<PortRef>>,
    /// Values merged into values appearing earlier in the region.
    pub merged_values: AList<u32>,
}

impl View for BuildContext {
    type V = WiringView;

    open spec fn view(&self) -> WiringView {
        WiringView {
            inputs: self.input_edges.as_map(),
            outputs: self.output_edges.as_map(),
            alias: self.merged_values.as_map(),
        }
    }
}

impl BuildContext {
    /// The context's internal lists are well formed, the alias map points
    /// strictly backwards, and port lists are keyed by canonical values
    /// only.
    pub open spec fn wf(self) -> bool {
        &&& self.input_edges.wf()
        &&& self.output_edges.wf()
        &&& self.merged_values.wf()
        &&& alias_wf(self@.alias)
        &&& forall|k: u32| self@.inputs.contains_key(k) ==> !self@.alias.contains_key(k)
        &&& forall|k: u32| self@.outputs.contains_key(k) ==> !self@.alias.contains_key(k)
    }

    /// A fresh, empty context.
    pub fn new() -> (r: Self)
        ensures
            r.wf(),
            r@.inputs == Map::<u32, Seq<PortRef>>::empty(),
            r@.outputs == Map::<u32, Seq<PortRef>>::empty(),
            r@.alias == Map::<u32, u32>::empty(),
    {
        let r = BuildContext {
            input_edges: AList::new(),
            output_edges: AList::new(),
            merged_values: AList::new(),
        };
        proof {
            assert(r@.inputs =~= Map::<u32, Seq<PortRef>>::empty());
            assert(r@.outputs =~= Map::<u32, Seq<PortRef>>::empty());
        }
        r
    }

    /// Returns the earliest value id that should be used for a given
    /// value: the end of its merge-alias chain.
    pub fn earliest_id(&self, value_id: u32) -> (r: u32)
        requires
            self.wf(),
        ensures
            r == canonical(self@.alias, value_id),
            !self@.alias.contains_key(r),
            r <= value_id,
    {
        let mut cur = value_id;
        proof {
            lemma_canonical_fixpoint(self@.alias, value_id);
        }
        loop
            invariant
                self.wf(),
                cur <= value_id,
                canonical(self@.alias, cur) == canonical(self@.alias, value_id),
            decreases cur,
        {
            match self.merged_values.get(cur) {
                Some(e) => {
                    proof {
                        lemma_canonical_step(self@.alias, cur);
                    }
                    cur = *e;
                },
                None => {
                    proof {
                        assert(canonical(self@.alias, cur) == cur);
                    }
                    return cur;
                },
            }
        }
    }

    /// Append `p` to the ports registered under the canonical value of
    /// `v` in `edges`.
    pub(crate) fn push_into(edges: &mut AList<Vec<PortRef>>, c: u32, p: PortRef)
        requires
            old(edges).wf(),
        ensures
            (*final(edges)).wf(),
            (*final(edges)).as_map() == push_port(old(edges).as_map(), c, p),
            forall|k: u32|
                (*final(edges)).as_map().contains_key(k) ==> k == c || old(
                    edges,
                ).as_map().contains_key(k),
    {
        let ghost m0 = edges.as_map();
        match edges.remove(c) {
            Some(mut cur) => {
                cur.push(p);
                edges.insert_new(c, cur);
                proof {
                    assert(edges.as_map() =~= push_port(m0, c, p));
                }
            },
            None => {
                let mut cur: Vec<PortRef> = Vec::new();
                cur.push(p);
                edges.insert_new(c, cur);
                proof {
                    assert(cur@ =~= Seq::<PortRef>::empty().push(p));
                    assert(edges.as_map() =~= push_port(m0, c, p));
                }
            },
        }
    }

    /// Register an incoming node port to a value.
    pub fn register_input(&mut self, value_id: u32, node: NodeId, port: usize)
        requires
            old(self).wf(),
        ensures
            (*final(self)).wf(),
            (*final(self))@ == spec_register_input(old(self)@, value_id, PortRef { node, port }),
    {
        let c = self.earliest_id(value_id);
        Self::push_into(&mut self.input_edges, c, PortRef { node, port });
    }

    /// Register an outgoing node port to a value.
    pub fn register_output(&mut self, value_id: u32, node: NodeId, port: usize)
        requires
            old(self).wf(),
        ensures
            (*final(self)).wf(),
            (*final(self))@ == spec_register_output(old(self)@, value_id, PortRef { node, port }),
    {
        let c = self.earliest_id(value_id);
        Self::push_into(&mut self.output_edges, c, PortRef { node, port });
    }

    /// Signal that a value should be merged into another appearing earlier
    /// in the region.
    ///
    /// This is used to elide structurally transparent operations. The two
    /// values' canonical representatives become one - the earlier of the
    /// two, whichever order the arguments are given in - and the ports
    /// registered under the later representative are redirected to the
    /// earlier, so the alias chains stay acyclic.
    pub fn merge_with_earlier(&mut self, value_id: u32, earlier_id: u32)
        requires
            old(self).wf(),
        ensures
            (*final(self)).wf(),
            (*final(self))@ == spec_merge(old(self)@, value_id, earlier_id),
            canonical((*final(self))@.alias, value_id) == canonical(
                (*final(self))@.alias,
                earlier_id,
            ),
    {
        let ca = self.earliest_id(value_id);
        let cb = self.earliest_id(earlier_id);
        if ca == cb {
            proof {
                assert(self@ == spec_merge(old(self)@, value_id, earlier_id));
            }
            return ;
        }
        let hi = if ca < cb {
            cb
        } else {
            ca
        };
        let lo = if ca < cb {
            ca
        } else {
            cb
        };
        let ghost w0 = self@;
        self.merged_values.insert_new(hi, lo);
        proof {
            assert(self@.alias == w0.alias.insert(hi, lo));
            lemma_canonical_redirect(w0.alias, hi, lo, value_id);
            assert(alias_wf(self@.alias));
        }
        match self.input_edges.remove(hi) {
            Some(moved) => {
                let mut ports = moved;
                match self.input_edges.remove(lo) {
                    Some(mut curv) => {
                        curv.append(&mut ports);
                        self.input_edges.insert_new(lo, curv);
                    },
                    None => {
                        self.input_edges.insert_new(lo, ports);
                    },
                }
            },
            None => {},
        }
        proof {
            assert(self@.inputs =~= move_entry(w0.inputs, hi, lo));
        }
        match self.output_edges.remove(hi) {
            Some(moved) => {
                let mut ports = moved;
                match self.output_edges.remove(lo) {
                    Some(mut curv) => {
                        curv.append(&mut ports);
                        self.output_edges.insert_new(lo, curv);
                    },
                    None => {
                        self.output_edges.insert_new(lo, ports);
                    },
                }
            },
            None => {},
        }
        proof {
            assert(self@.outputs =~= move_entry(w0.outputs, hi, lo));
            lemma_merge_aliases(w0, value_id, earlier_id);
            assert(self@ == spec_merge(w0, value_id, earlier_id));
            assert(self.wf()) by {
                assert forall|k: u32| self@.inputs.contains_key(k) implies !self@.alias.contains_key(
                    k,
                ) by {}
                assert forall|k: u32|
                    self@.outputs.contains_key(k) implies !self@.alias.contains_key(k) by {}
            }
        }
    }
}


/// The data edge that connects a registered output port to a registered
/// input port.
pub open spec fn pair_edge(o: PortRef, i: PortRef) -> crate::graph::Edge {
    crate::graph::Edge { src: o.node, src_port: o.port, dst: i.node, dst_port: i.port }
}

/// Whether the edge's endpoints live under different parents in the given
/// node table.
pub open spec fn cross_scope(nodes: Seq<crate::graph::NodeData>, e: crate::graph::Edge) -> bool {
    nodes[e.src as int].parent != nodes[e.dst as int].parent
}

/// Whether `oe` is the ordering edge that accompanies a cross-scope data
/// edge from `src` to `dst`: it joins an ancestor of each, the two share a
/// parent scope, and they are distinct.
pub open spec fn order_edge_for(
    nodes: Seq<crate::graph::NodeData>,
    src: NodeId,
    dst: NodeId,
    oe: OrderEdge,
) -> bool {
    &&& oe.src < nodes.len()
    &&& oe.dst < nodes.len()
    &&& crate::graph::ancestor_in(nodes, oe.src as int, src as int)
    &&& crate::graph::ancestor_in(nodes, oe.dst as int, dst as int)
    &&& nodes[oe.src as int].parent == nodes[oe.dst as int].parent
    &&& oe.src != oe.dst
}

/// Whether the edge connects a registered input to a registered output of
/// the same canonical value.
pub open spec fn edge_from_registration(w: WiringView, e: crate::graph::Edge) -> bool {
    exists|v: u32|
        #![trigger w.inputs[v]]
        w.inputs.contains_key(v) && w.outputs.contains_key(v) && w.inputs[v].contains(
            PortRef { node: e.dst, port: e.dst_port },
        ) && w.outputs[v].contains(PortRef { node: e.src, port: e.src_port })
}

/// A prefix's members stay members of the longer sequence.
pub proof fn lemma_prefix_contains<T>(s1: Seq<T>, s2: Seq<T>)
    requires
        s1.is_prefix_of(s2),
    ensures
        forall|x: T| s1.contains(x) ==> s2.contains(x),
{
    assert forall|x: T| s1.contains(x) implies s2.contains(x) by {
        let i = choose|i: int| 0 <= i < s1.len() && s1[i] == x;
        assert(s2[i] == x);
    }
}

/// Prefixes compose.
pub proof fn lemma_prefix_trans<T>(s1: Seq<T>, s2: Seq<T>, s3: Seq<T>)
    requires
        s1.is_prefix_of(s2),
        s2.is_prefix_of(s3),
    ensures
        s1.is_prefix_of(s3),
{
    assert(s1 =~= s3.subrange(0, s1.len() as int));
}

/// The error raised when a cross-scope connection has no pair of sibling
/// ancestors to carry its ordering edge: the nesting is malformed.
#[derive(Clone, Copy, Debug, PartialEq, Eq, Structural)]
pub enum ResolveError {
    /// The two nodes share no common scope, or one scope encloses the
    /// other's node directly.
    NoCommonScope {
        /// The producing node.
        src: NodeId,
        /// The consuming node.
        dst: NodeId,
    },
}

/// Draw the data edge for one resolved output/input pair, and, when the
/// two nodes do not share an immediate enclosing scope, insert the
/// explicit ordering edge between their nearest sibling ancestors.
pub fn connect_pair(g: &mut Graph, o: PortRef, i: PortRef) -> (r: Result<(), ResolveError>)
    requires
        old(g).wf(),
        o.node < old(g).nodes@.len(),
        i.node < old(g).nodes@.len(),
    ensures
        (*final(g)).wf(),
        (*final(g)).nodes@ == old(g).nodes@,
        r is Ok ==> (*final(g)).edges@ == old(g).edges@.push(pair_edge(o, i)),
        r is Ok && !cross_scope(old(g).nodes@, pair_edge(o, i)) ==> (*final(g)).order_edges@ == old(
            g,
        ).order_edges@,
        r is Ok && cross_scope(old(g).nodes@, pair_edge(o, i)) ==> exists|oe: OrderEdge|
            (*final(g)).order_edges@ == old(g).order_edges@.push(oe) && order_edge_for(
                old(g).nodes@,
                o.node,
                i.node,
                oe,
            ),
        r is Err ==> *final(g) == *old(g),
        r matches Err(ResolveError::NoCommonScope { src, dst }) ==> src == o.node && dst == i.node
            && cross_scope(old(g).nodes@, pair_edge(o, i)),
{
    let psrc = g.parent_of(o.node);
    let pdst = g.parent_of(i.node);
    let same = match (psrc, pdst) {
        (Some(a), Some(b)) => a == b,
        (None, None) => true,
        _ => false,
    };
    if same {
        g.connect(o.node, o.port, i.node, i.port);
        return Ok(());
    }
    match g.sibling_ancestors(o.node, i.node) {
        Some((x, y)) => {
            if x == y {
                return Err(ResolveError::NoCommonScope { src: o.node, dst: i.node });
            }
            g.connect(o.node, o.port, i.node, i.port);
            g.add_order_edge(x, y);
            proof {
                let oe = OrderEdge { src: x, dst: y };
                assert((*g).order_edges@ == old(g).order_edges@.push(oe));
                assert(order_edge_for(old(g).nodes@, o.node, i.node, oe));
            }
            Ok(())
        },
        None => Err(ResolveError::NoCommonScope { src: o.node, dst: i.node }),
    }
}

/// The edges drawn when one output port is connected to every input port
/// of its value, in input order.
pub open spec fn pair_row(o: PortRef, ins: Seq<PortRef>) -> Seq<crate::graph::Edge> {
    Seq::new(ins.len(), |j: int| pair_edge(o, ins[j]))
}

/// The edges drawn when every output port of a value is connected to every
/// input port, output-major.
pub open spec fn pairs_seq(outs: Seq<PortRef>, ins: Seq<PortRef>) -> Seq<crate::graph::Edge>
    decreases outs.len(),
{
    if outs.len() == 0 {
        Seq::empty()
    } else {
        pairs_seq(outs.drop_last(), ins) + pair_row(outs.last(), ins)
    }
}

/// Appending an output appends its row of edges.
pub proof fn lemma_pairs_seq_push(outs: Seq<PortRef>, x: PortRef, ins: Seq<PortRef>)
    ensures
        pairs_seq(outs.push(x), ins) == pairs_seq(outs, ins) + pair_row(x, ins),
{
    assert(outs.push(x).drop_last() =~= outs);
    assert(outs.push(x).last() == x);
}

/// Every edge of `pairs_seq` joins an output port to an input port, and
/// every output/input pair appears in it.
pub proof fn lemma_pairs_seq_elems(outs: Seq<PortRef>, ins: Seq<PortRef>)
    ensures
        forall|e: crate::graph::Edge|
            #![trigger pairs_seq(outs, ins).contains(e)]
            pairs_seq(outs, ins).contains(e) ==> exists|a: int, b: int|
                #![trigger outs[a], ins[b]]
                0 <= a < outs.len() && 0 <= b < ins.len() && e == pair_edge(outs[a], ins[b]),
        forall|a: int, b: int|
            #![trigger outs[a], ins[b]]
            0 <= a < outs.len() && 0 <= b < ins.len() ==> pairs_seq(outs, ins).contains(
                pair_edge(outs[a], ins[b]),
            ),
    decreases outs.len(),
{
    if outs.len() > 0 {
        let pre = outs.drop_last();
        lemma_pairs_seq_elems(pre, ins);
        let whole = pairs_seq(outs, ins);
        let left = pairs_seq(pre, ins);
        let row = pair_row(outs.last(), ins);
        assert forall|e: crate::graph::Edge|
            pairs_seq(outs, ins).contains(e) implies exists|a: int, b: int|
            #![trigger outs[a], ins[b]]
            0 <= a < outs.len() && 0 <= b < ins.len() && e == pair_edge(outs[a], ins[b]) by {
            let idx = choose|idx: int| 0 <= idx < whole.len() && whole[idx] == e;
            if idx < left.len() {
                assert(whole[idx] == left[idx]);
                assert(left.contains(e)) by {
                    assert(left[idx] == e);
                }
                let (a, b): (int, int) = choose|a: int, b: int|
                    #![trigger pre[a], ins[b]]
                    0 <= a < pre.len() && 0 <= b < ins.len() && e == pair_edge(pre[a], ins[b]);
                assert(outs[a] == pre[a]);
                assert(e == pair_edge(outs[a], ins[b]));
            } else {
                let b = idx - left.len();
                assert(whole[idx] == row[b]);
                assert(row[b] == pair_edge(outs.last(), ins[b]));
                assert(outs[outs.len() - 1] == outs.last());
            }
        }
        assert forall|a: int, b: int|
            0 <= a < outs.len() && 0 <= b < ins.len() implies pairs_seq(outs, ins).contains(
            pair_edge(outs[a], ins[b]),
        ) by {
            if a < outs.len() - 1 {
                assert(left.contains(pair_edge(pre[a], ins[b])));
                let idx = choose|idx: int|
                    0 <= idx < left.len() && left[idx] == pair_edge(pre[a], ins[b]);
                assert(whole[idx] == pair_edge(outs[a], ins[b]));
            } else {
                assert(row[b] == pair_edge(outs.last(), ins[b]));
                assert(whole[left.len() + b] == pair_edge(outs[a], ins[b]));
            }
        }
    }
}

/// Draw the data edges for every output/input pair of one resolved value.
///
/// On success the edges added are exactly the output-major sequence of
/// pairs; whether or not it succeeds, every cross-scope edge it added has
/// its ordering edge.
pub fn connect_all(g: &mut Graph, outs: &Vec<PortRef>, ins: &Vec<PortRef>) -> (r: Result<
    (),
    ResolveError,
>)
    requires
        old(g).wf(),
        forall|a: int| 0 <= a < outs@.len() ==> (#[trigger] outs@[a]).node < old(g).nodes@.len(),
        forall|b: int| 0 <= b < ins@.len() ==> (#[trigger] ins@[b]).node < old(g).nodes@.len(),
    ensures
        (*final(g)).wf(),
        (*final(g)).nodes@ == old(g).nodes@,
        old(g).edges@.is_prefix_of((*final(g)).edges@),
        old(g).order_edges@.is_prefix_of((*final(g)).order_edges@),
        forall|ei: int|
            #![trigger (*final(g)).edges@[ei]]
            old(g).edges@.len() <= ei < (*final(g)).edges@.len() && cross_scope(
                old(g).nodes@,
                (*final(g)).edges@[ei],
            ) ==> exists|qi: int|
                #![trigger (*final(g)).order_edges@[qi]]
                0 <= qi < (*final(g)).order_edges@.len() && order_edge_for(
                    old(g).nodes@,
                    (*final(g)).edges@[ei].src,
                    (*final(g)).edges@[ei].dst,
                    (*final(g)).order_edges@[qi],
                ),
        r is Ok ==> (*final(g)).edges@ == old(g).edges@ + pairs_seq(outs@, ins@),
        r matches Err(ResolveError::NoCommonScope { src, dst }) ==> old(g).nodes@[src as int].parent
            != old(g).nodes@[dst as int].parent && (exists|a2: int|
            0 <= a2 < outs@.len() && (#[trigger] outs@[a2]).node == src) && (exists|b2: int|
            0 <= b2 < ins@.len() && (#[trigger] ins@[b2]).node == dst),
{
    let ghost nodes0 = old(g).nodes@;
    let ghost edges0 = old(g).edges@;
    let ghost order0 = old(g).order_edges@;
    for a in 0..outs.len()
        invariant
            nodes0 == old(g).nodes@,
            edges0 == old(g).edges@,
            order0 == old(g).order_edges@,
            (*g).wf(),
            (*g).nodes@ == nodes0,
            order0.is_prefix_of((*g).order_edges@),
            (*g).edges@ == edges0 + pairs_seq(outs@.take(a as int), ins@),
            forall|a2: int| 0 <= a2 < outs@.len() ==> (#[trigger] outs@[a2]).node < nodes0.len(),
            forall|b2: int| 0 <= b2 < ins@.len() ==> (#[trigger] ins@[b2]).node < nodes0.len(),
            forall|ei: int|
                #![trigger (*g).edges@[ei]]
                edges0.len() <= ei < (*g).edges@.len() && cross_scope(nodes0, (*g).edges@[ei])
                    ==> exists|qi: int|
                    #![trigger (*g).order_edges@[qi]]
                    0 <= qi < (*g).order_edges@.len() && order_edge_for(
                        nodes0,
                        (*g).edges@[ei].src,
                        (*g).edges@[ei].dst,
                        (*g).order_edges@[qi],
                    ),
    {
        for b in 0..ins.len()
            invariant
                nodes0 == old(g).nodes@,
                edges0 == old(g).edges@,
                order0 == old(g).order_edges@,
                (*g).wf(),
                (*g).nodes@ == nodes0,
                a < outs@.len(),
                order0.is_prefix_of((*g).order_edges@),
                (*g).edges@ == edges0 + pairs_seq(outs@.take(a as int), ins@) + pair_row(
                    outs@[a as int],
                    ins@.take(b as int),
                ),
                forall|a2: int| 0 <= a2 < outs@.len() ==> (#[trigger] outs@[a2]).node
                    < nodes0.len(),
                forall|b2: int| 0 <= b2 < ins@.len() ==> (#[trigger] ins@[b2]).node < nodes0.len(),
                forall|ei: int|
                    #![trigger (*g).edges@[ei]]
                    edges0.len() <= ei < (*g).edges@.len() && cross_scope(nodes0, (*g).edges@[ei])
                        ==> exists|qi: int|
                        #![trigger (*g).order_edges@[qi]]
                        0 <= qi < (*g).order_edges@.len() && order_edge_for(
                            nodes0,
                            (*g).edges@[ei].src,
                            (*g).edges@[ei].dst,
                            (*g).order_edges@[qi],
                        ),
        {
            let ghost g_pre = *g;
            match connect_pair(g, outs[a], ins[b]) {
                Ok(()) => {
                    proof {
                        lemma_prefix_trans(order0, g_pre.order_edges@, (*g).order_edges@);
                        let e = pair_edge(outs@[a as int], ins@[b as int]);
                        assert((*g).edges@ == g_pre.edges@.push(e));
                        assert(pair_row(outs@[a as int], ins@.take(b as int + 1)) =~= pair_row(
                            outs@[a as int],
                            ins@.take(b as int),
                        ).push(e));
                        assert((*g).edges@ =~= edges0 + pairs_seq(outs@.take(a as int), ins@)
                            + pair_row(outs@[a as int], ins@.take(b as int + 1)));
                        assert forall|ei: int|
                            edges0.len() <= ei < (*g).edges@.len() && cross_scope(
                                nodes0,
                                (*g).edges@[ei],
                            ) implies exists|qi: int|
                            #![trigger (*g).order_edges@[qi]]
                            0 <= qi < (*g).order_edges@.len() && order_edge_for(
                                nodes0,
                                (*g).edges@[ei].src,
                                (*g).edges@[ei].dst,
                                (*g).order_edges@[qi],
                            ) by {
                            if ei < g_pre.edges@.len() {
                                assert((*g).edges@[ei] == g_pre.edges@[ei]);
                                let qi = choose|qi: int|
                                    #![trigger g_pre.order_edges@[qi]]
                                    0 <= qi < g_pre.order_edges@.len() && order_edge_for(
                                        nodes0,
                                        g_pre.edges@[ei].src,
                                        g_pre.edges@[ei].dst,
                                        g_pre.order_edges@[qi],
                                    );
                                assert((*g).order_edges@[qi] == g_pre.order_edges@[qi]);
                            } else {
                                assert((*g).edges@[ei] == e);
                                let oe = choose|oe: OrderEdge|
                                    (*g).order_edges@ == g_pre.order_edges@.push(oe)
                                        && order_edge_for(nodes0, e.src, e.dst, oe);
                                assert((*g).order_edges@[(*g).order_edges@.len() - 1] == oe);
                            }
                        }
                    }
                },
                Err(e) => {
                    proof {
                        lemma_prefix_contains(edges0, (*g).edges@);
                        assert(edges0.is_prefix_of((*g).edges@)) by {
                            assert((*g).edges@.subrange(0, edges0.len() as int) =~= edges0);
                        }
                        assert(e matches ResolveError::NoCommonScope { src, dst } && src
                            == outs@[a as int].node && dst == ins@[b as int].node);
                    }
                    return Err(e);
                },
            }
        }
        proof {
            assert(outs@.take(a as int + 1) =~= outs@.take(a as int).push(outs@[a as int]));
            lemma_pairs_seq_push(outs@.take(a as int), outs@[a as int], ins@);
            assert(pair_row(outs@[a as int], ins@.take(ins@.len() as int)) =~= pair_row(
                outs@[a as int],
                ins@,
            ));
            assert((*g).edges@ =~= edges0 + pairs_seq(outs@.take(a as int + 1), ins@));
        }
    }
    proof {
        assert(outs@.take(outs@.len() as int) =~= outs@);
        assert(edges0.is_prefix_of((*g).edges@)) by {
            assert((*g).edges@.subrange(0, edges0.len() as int) =~= edges0);
        }
    }
    Ok(())
}


/// The edges drawn when the first `done` registered values resolve, in
/// context order: for each input entry whose value also has registered
/// outputs, every output port connects to every input port.
pub open spec fn resolved_edges(
    w: WiringView,
    entries: Seq<(u32, Seq<PortRef>)>,
    done: int,
) -> Seq<crate::graph::Edge>
    decreases done,
{
    if done <= 0 {
        Seq::empty()
    } else {
        resolved_edges(w, entries, done - 1) + (if w.outputs.contains_key(entries[done - 1].0) {
            pairs_seq(w.outputs[entries[done - 1].0], entries[done - 1].1)
        } else {
            Seq::empty()
        })
    }
}

/// The input registrations still unmatched after the first `done` entries:
/// those whose value has no registered output.
pub open spec fn leftover_inputs(
    w: WiringView,
    entries: Seq<(u32, Seq<PortRef>)>,
    done: int,
) -> Map<u32, Seq<PortRef>>
    decreases done,
{
    if done <= 0 {
        Map::empty()
    } else {
        let m = leftover_inputs(w, entries, done - 1);
        if w.outputs.contains_key(entries[done - 1].0) {
            m
        } else {
            m.insert(entries[done - 1].0, entries[done - 1].1)
        }
    }
}

/// A member of the right part of a concatenation is a member of the whole.
pub proof fn lemma_concat_contains<T>(s1: Seq<T>, s2: Seq<T>, x: T)
    requires
        s1.contains(x) || s2.contains(x),
    ensures
        (s1 + s2).contains(x),
{
    if s1.contains(x) {
        let i = choose|i: int| 0 <= i < s1.len() && s1[i] == x;
        assert((s1 + s2)[i] == x);
    } else {
        let i = choose|i: int| 0 <= i < s2.len() && s2[i] == x;
        assert((s1 + s2)[s1.len() + i] == x);
    }
}

/// Every key of the leftover map names an entry among the first `done`
/// ones that has no registered output; every such entry is in the map with
/// its port list.
pub proof fn lemma_leftover_inputs_entries(
    w: WiringView,
    entries: Seq<(u32, Seq<PortRef>)>,
    done: int,
)
    requires
        distinct_keys(entries),
        0 <= done <= entries.len(),
    ensures
        forall|k: u32|
            #![trigger leftover_inputs(w, entries, done).contains_key(k)]
            leftover_inputs(w, entries, done).contains_key(k) ==> !w.outputs.contains_key(k)
                && exists|j: int|
                #![trigger entries[j]]
                0 <= j < done && entries[j].0 == k && leftover_inputs(w, entries, done)[k]
                    == entries[j].1,
        forall|j: int|
            #![trigger entries[j]]
            0 <= j < done && !w.outputs.contains_key(entries[j].0) ==> leftover_inputs(
                w,
                entries,
                done,
            ).contains_key(entries[j].0) && leftover_inputs(w, entries, done)[entries[j].0]
                == entries[j].1,
    decreases done,
{
    if done > 0 {
        lemma_leftover_inputs_entries(w, entries, done - 1);
        let m = leftover_inputs(w, entries, done - 1);
        let k0 = entries[done - 1].0;
        assert forall|k: u32|
            leftover_inputs(w, entries, done).contains_key(k) implies !w.outputs.contains_key(k)
            && exists|j: int|
            #![trigger entries[j]]
            0 <= j < done && entries[j].0 == k && leftover_inputs(w, entries, done)[k]
                == entries[j].1 by {
            if w.outputs.contains_key(k0) || k != k0 {
                assert(m.contains_key(k));
                let j = choose|j: int|
                    #![trigger entries[j]]
                    0 <= j < done - 1 && entries[j].0 == k && m[k] == entries[j].1;
                assert(entries[j].0 == k);
                assert(leftover_inputs(w, entries, done)[k] == entries[j].1);
            } else {
                assert(entries[done - 1].0 == k);
            }
        }
    }
}

/// After all entries of the input map resolve, the leftover inputs are
/// exactly the registered inputs whose value has no registered output.
pub proof fn lemma_leftover_inputs_final(w: WiringView, entries: Seq<(u32, Seq<PortRef>)>)
    requires
        distinct_keys(entries),
        map_of(entries) == w.inputs,
    ensures
        leftover_inputs(w, entries, entries.len() as int) == w.inputs.remove_keys(
            w.outputs.dom(),
        ),
{
    let n = entries.len() as int;
    lemma_leftover_inputs_entries(w, entries, n);
    assert_maps_equal!(leftover_inputs(w, entries, n), w.inputs.remove_keys(w.outputs.dom()), k => {
        if w.inputs.remove_keys(w.outputs.dom()).contains_key(k) {
            lemma_map_of_dom(entries, k);
            let j = choose|j: int| 0 <= j < entries.len() && entries[j].0 == k;
            lemma_map_of_index(entries, j);
            assert(entries[j].1 == w.inputs[k]);
            assert(leftover_inputs(w, entries, n).contains_key(entries[j].0));
        }
        if leftover_inputs(w, entries, n).contains_key(k) {
            let j = choose|j: int|
                #![trigger entries[j]]
                0 <= j < n && entries[j].0 == k && leftover_inputs(w, entries, n)[k]
                    == entries[j].1;
            lemma_map_of_index(entries, j);
            assert(w.inputs.contains_key(k));
            assert(w.inputs[k] == entries[j].1);
        }
    });
}

/// Every resolved connection corresponds to a registered input whose
/// canonical value has at least one registered output: each edge drawn by
/// resolution joins a registered output port of some value to a
/// registered input port of the same value. Unmatched inputs are never
/// connected; they surface in the leftover map and, at the outermost
/// region, as a reported error.
pub proof fn lemma_resolution_sound(w: WiringView, entries: Seq<(u32, Seq<PortRef>)>, done: int)
    requires
        distinct_keys(entries),
        map_of(entries) == w.inputs,
        0 <= done <= entries.len(),
    ensures
        forall|e: crate::graph::Edge|
            #![trigger resolved_edges(w, entries, done).contains(e)]
            resolved_edges(w, entries, done).contains(e) ==> edge_from_registration(w, e),
    decreases done,
{
    if done > 0 {
        lemma_resolution_sound(w, entries, done - 1);
        let k = entries[done - 1].0;
        let whole = resolved_edges(w, entries, done);
        let left = resolved_edges(w, entries, done - 1);
        assert forall|e: crate::graph::Edge| whole.contains(e) implies edge_from_registration(
            w,
            e,
        ) by {
            let i = choose|i: int| 0 <= i < whole.len() && whole[i] == e;
            if i < left.len() {
                assert(left[i] == e);
                assert(left.contains(e));
            } else {
                assert(w.outputs.contains_key(k));
                let chunk = pairs_seq(w.outputs[k], entries[done - 1].1);
                assert(chunk[i - left.len()] == e);
                assert(chunk.contains(e));
                lemma_pairs_seq_elems(w.outputs[k], entries[done - 1].1);
                let (a, b): (int, int) = choose|a: int, b: int|
                    #![trigger w.outputs[k][a], entries[done - 1].1[b]]
                    0 <= a < w.outputs[k].len() && 0 <= b < entries[done - 1].1.len() && e
                        == pair_edge(w.outputs[k][a], entries[done - 1].1[b]);
                lemma_map_of_index(entries, done - 1);
                assert(w.inputs.contains_key(k));
                assert(w.inputs[k] == entries[done - 1].1);
                assert(w.inputs[k].contains(PortRef { node: e.dst, port: e.dst_port }));
                assert(w.outputs[k].contains(PortRef { node: e.src, port: e.src_port }));
            }
        }
    }
}

/// Every registered input whose value also has registered outputs is
/// connected to every one of those outputs once resolution has passed its
/// entry.
pub proof fn lemma_resolution_complete(w: WiringView, entries: Seq<(u32, Seq<PortRef>)>, done: int)
    requires
        distinct_keys(entries),
        map_of(entries) == w.inputs,
        0 <= done <= entries.len(),
    ensures
        forall|j: int, oi: int, ii: int|
            #![trigger entries[j].1[ii], w.outputs[entries[j].0][oi]]
            0 <= j < done && w.outputs.contains_key(entries[j].0) && 0 <= oi < w.outputs[entries[j].0].len()
                && 0 <= ii < entries[j].1.len() ==> resolved_edges(w, entries, done).contains(
                pair_edge(w.outputs[entries[j].0][oi], entries[j].1[ii]),
            ),
    decreases done,
{
    if done > 0 {
        lemma_resolution_complete(w, entries, done - 1);
        let k = entries[done - 1].0;
        let whole = resolved_edges(w, entries, done);
        let left = resolved_edges(w, entries, done - 1);
        assert forall|j: int, oi: int, ii: int|
            0 <= j < done && w.outputs.contains_key(entries[j].0) && 0 <= oi < w.outputs[entries[j].0].len()
                && 0 <= ii < entries[j].1.len() implies whole.contains(
            pair_edge(w.outputs[entries[j].0][oi], entries[j].1[ii]),
        ) by {
            let e = pair_edge(w.outputs[entries[j].0][oi], entries[j].1[ii]);
            if j < done - 1 {
                assert(left.contains(e));
                if w.outputs.contains_key(k) {
                    lemma_concat_contains(left, pairs_seq(w.outputs[k], entries[done - 1].1), e);
                } else {
                    lemma_concat_contains(left, Seq::empty(), e);
                }
            } else {
                lemma_pairs_seq_elems(w.outputs[k], entries[done - 1].1);
                let chunk = pairs_seq(w.outputs[k], entries[done - 1].1);
                assert(chunk.contains(e));
                lemma_concat_contains(left, chunk, e);
            }
        }
    }
}

impl BuildContext {
    /// Resolve the context against the graph: connect every registered
    /// output port of each value to every registered input port of the
    /// same value, inserting an explicit ordering edge wherever producer
    /// and consumer do not share an immediate enclosing scope.
    ///
    /// Returns the leftover context for the enclosing scope: every
    /// registration of a value with no local match. Matched inputs are
    /// consumed; outputs stay visible, since an enclosing region may still
    /// consume their values.
    pub fn resolve(self, g: &mut Graph) -> (r: Result<BuildContext, ResolveError>)
        requires
            self.wf(),
            old(g).wf(),
            ports_bounded(self@.inputs, old(g).nodes@.len() as nat),
            ports_bounded(self@.outputs, old(g).nodes@.len() as nat),
        ensures
            (*final(g)).wf(),
            (*final(g)).nodes@ == old(g).nodes@,
            old(g).edges@.is_prefix_of((*final(g)).edges@),
            old(g).order_edges@.is_prefix_of((*final(g)).order_edges@),
            forall|ei: int|
                #![trigger (*final(g)).edges@[ei]]
                old(g).edges@.len() <= ei < (*final(g)).edges@.len() && cross_scope(
                    old(g).nodes@,
                    (*final(g)).edges@[ei],
                ) ==> exists|qi: int|
                    #![trigger (*final(g)).order_edges@[qi]]
                    0 <= qi < (*final(g)).order_edges@.len() && order_edge_for(
                        old(g).nodes@,
                        (*final(g)).edges@[ei].src,
                        (*final(g)).edges@[ei].dst,
                        (*final(g)).order_edges@[qi],
                    ),
            r matches Err(ResolveError::NoCommonScope { src, dst }) ==> old(g).nodes@[src as int].parent
                != old(g).nodes@[dst as int].parent && (exists|v: u32|
                #![trigger self@.outputs[v], self@.inputs[v]]
                self@.outputs.contains_key(v) && self@.inputs.contains_key(v) && (exists|a: int|
                    0 <= a < self@.outputs[v].len() && (#[trigger] self@.outputs[v][a]).node
                        == src) && (exists|b: int|
                    0 <= b < self@.inputs[v].len() && (#[trigger] self@.inputs[v][b]).node
                        == dst)),
            r matches Ok(left) ==> {
                &&& (*final(g)).edges@ == old(g).edges@ + resolved_edges(
                    self@,
                    self.input_edges.entry_seq(),
                    self.input_edges.entry_seq().len() as int,
                )
                &&& distinct_keys(self.input_edges.entry_seq())
                &&& map_of(self.input_edges.entry_seq()) == self@.inputs
                &&& left.wf()
                &&& left@.alias == Map::<u32, u32>::empty()
                &&& left@.outputs == self@.outputs
                &&& left@.inputs == self@.inputs.remove_keys(self@.outputs.dom())
            },
    {
        let ghost w = self@;
        let BuildContext { input_edges, output_edges, merged_values: _ } = self;
        let ghost entries = input_edges.entry_seq();
        let ghost nodes0 = old(g).nodes@;
        let ghost edges0 = old(g).edges@;
        let ghost order0 = old(g).order_edges@;
        let mut leftover: AList<Vec<PortRef>> = AList::new();
        let mut rest: Vec<crate::alist::AEntry<Vec<PortRef>>> = input_edges.entries;
        let total = rest.len();
        let mut done: usize = 0;
        proof {
            assert(output_edges.as_map() == w.outputs);
            assert(map_of(entries) == w.inputs);
            assert(entries.len() == total);
        }
        while rest.len() > 0
            invariant
                w == self@,
                entries.len() == total,
                nodes0 == old(g).nodes@,
                edges0 == old(g).edges@,
                order0 == old(g).order_edges@,
                (*g).wf(),
                (*g).nodes@ == nodes0,
                order0.is_prefix_of((*g).order_edges@),
                done + rest@.len() == entries.len(),
                forall|j: int|
                    0 <= j < rest@.len() ==> ((#[trigger] rest@[j]).key, rest@[j].value@)
                        == entries[done + j],
                distinct_keys(entries),
                map_of(entries) == w.inputs,
                output_edges.wf(),
                output_edges.as_map() == w.outputs,
                ports_bounded(w.inputs, nodes0.len() as nat),
                ports_bounded(w.outputs, nodes0.len() as nat),
                (*g).edges@ == edges0 + resolved_edges(w, entries, done as int),
                leftover.wf(),
                leftover.as_map() == leftover_inputs(w, entries, done as int),
                forall|ei: int|
                    #![trigger (*g).edges@[ei]]
                    edges0.len() <= ei < (*g).edges@.len() && cross_scope(nodes0, (*g).edges@[ei])
                        ==> exists|qi: int|
                        #![trigger (*g).order_edges@[qi]]
                        0 <= qi < (*g).order_edges@.len() && order_edge_for(
                            nodes0,
                            (*g).edges@[ei].src,
                            (*g).edges@[ei].dst,
                            (*g).order_edges@[qi],
                        ),
            decreases rest@.len(),
        {
            let ghost rest0 = rest@;
            let entry = rest.remove(0);
            let ghost j = done as int;
            proof {
                assert((entry.key, entry.value@) == entries[j]);
                assert forall|j2: int|
                    0 <= j2 < rest@.len() implies ((#[trigger] rest@[j2]).key, rest@[j2].value@)
                    == entries[done + 1 + j2] by {
                    assert(rest@[j2] == rest0[j2 + 1]);
                }
            }
            let k = entry.key;
            match output_edges.get(k) {
                Some(outs) => {
                    proof {
                        assert(w.outputs.contains_key(k));
                        assert(outs@ == w.outputs[k]);
                        assert forall|a: int| 0 <= a < outs@.len() implies (#[trigger] outs@[a]).node
                            < nodes0.len() by {
                            assert(w.outputs[k][a] == outs@[a]);
                        }
                        lemma_map_of_index(entries, j);
                        assert(w.inputs.contains_key(k));
                        assert(entry.value@ == w.inputs[k]);
                        assert forall|b: int|
                            0 <= b < entry.value@.len() implies (#[trigger] entry.value@[b]).node
                            < nodes0.len() by {
                            assert(w.inputs[k][b] == entry.value@[b]);
                        }
                    }
                    let ghost g_pre = *g;
                    match connect_all(g, outs, &entry.value) {
                        Ok(()) => {
                            proof {
                                lemma_prefix_trans(order0, g_pre.order_edges@, (*g).order_edges@);
                                assert((*g).edges@ =~= edges0 + resolved_edges(
                                    w,
                                    entries,
                                    done as int + 1,
                                ));
                                assert forall|ei: int|
                                    edges0.len() <= ei < (*g).edges@.len() && cross_scope(
                                        nodes0,
                                        (*g).edges@[ei],
                                    ) implies exists|qi: int|
                                    #![trigger (*g).order_edges@[qi]]
                                    0 <= qi < (*g).order_edges@.len() && order_edge_for(
                                        nodes0,
                                        (*g).edges@[ei].src,
                                        (*g).edges@[ei].dst,
                                        (*g).order_edges@[qi],
                                    ) by {
                                    if ei < g_pre.edges@.len() {
                                        assert((*g).edges@[ei] == g_pre.edges@[ei]);
                                        let qi = choose|qi: int|
                                            #![trigger g_pre.order_edges@[qi]]
                                            0 <= qi < g_pre.order_edges@.len() && order_edge_for(
                                                nodes0,
                                                g_pre.edges@[ei].src,
                                                g_pre.edges@[ei].dst,
                                                g_pre.order_edges@[qi],
                                            );
                                        assert((*g).order_edges@[qi] == g_pre.order_edges@[qi]);
                                    } else {
                                        let qi = choose|qi: int|
                                            #![trigger (*g).order_edges@[qi]]
                                            0 <= qi < (*g).order_edges@.len() && order_edge_for(
                                                g_pre.nodes@,
                                                (*g).edges@[ei].src,
                                                (*g).edges@[ei].dst,
                                                (*g).order_edges@[qi],
                                            );
                                        assert(order_edge_for(
                                            nodes0,
                                            (*g).edges@[ei].src,
                                            (*g).edges@[ei].dst,
                                            (*g).order_edges@[qi],
                                        ));
                                    }
                                }
                            }
                        },
                        Err(e) => {
                            proof {
                                lemma_prefix_trans(order0, g_pre.order_edges@, (*g).order_edges@);
                                assert(edges0.is_prefix_of((*g).edges@)) by {
                                    assert(g_pre.edges@.is_prefix_of((*g).edges@));
                                    assert((*g).edges@.subrange(0, edges0.len() as int)
                                        =~= edges0);
                                }
                                assert forall|ei: int|
                                    edges0.len() <= ei < (*g).edges@.len() && cross_scope(
                                        nodes0,
                                        (*g).edges@[ei],
                                    ) implies exists|qi: int|
                                    #![trigger (*g).order_edges@[qi]]
                                    0 <= qi < (*g).order_edges@.len() && order_edge_for(
                                        nodes0,
                                        (*g).edges@[ei].src,
                                        (*g).edges@[ei].dst,
                                        (*g).order_edges@[qi],
                                    ) by {
                                    if ei < g_pre.edges@.len() {
                                        assert((*g).edges@[ei] == g_pre.edges@[ei]);
                                        let qi = choose|qi: int|
                                            #![trigger g_pre.order_edges@[qi]]
                                            0 <= qi < g_pre.order_edges@.len() && order_edge_for(
                                                nodes0,
                                                g_pre.edges@[ei].src,
                                                g_pre.edges@[ei].dst,
                                                g_pre.order_edges@[qi],
                                            );
                                        assert((*g).order_edges@[qi] == g_pre.order_edges@[qi]);
                                    } else {
                                        let qi = choose|qi: int|
                                            #![trigger (*g).order_edges@[qi]]
                                            0 <= qi < (*g).order_edges@.len() && order_edge_for(
                                                g_pre.nodes@,
                                                (*g).edges@[ei].src,
                                                (*g).edges@[ei].dst,
                                                (*g).order_edges@[qi],
                                            );
                                        assert(order_edge_for(
                                            nodes0,
                                            (*g).edges@[ei].src,
                                            (*g).edges@[ei].dst,
                                            (*g).order_edges@[qi],
                                        ));
                                    }
                                }
                                match e {
                                    ResolveError::NoCommonScope { src, dst } => {
                                        let a = choose|a: int|
                                            0 <= a < outs@.len() && (#[trigger] outs@[a]).node
                                                == src;
                                        assert(w.outputs[k][a].node == src);
                                        let b = choose|b: int|
                                            0 <= b < entry.value@.len() && (
                                            #[trigger] entry.value@[b]).node == dst;
                                        assert(w.inputs[k][b].node == dst);
                                        assert(old(g).nodes@[src as int].parent != old(
                                            g,
                                        ).nodes@[dst as int].parent);
                                        assert(exists|v: u32|
                                            #![trigger w.outputs[v], w.inputs[v]]
                                            w.outputs.contains_key(v) && w.inputs.contains_key(v)
                                                && (exists|a2: int|
                                                0 <= a2 < w.outputs[v].len() && (
                                                #[trigger] w.outputs[v][a2]).node == src) && (
                                            exists|b2: int|
                                                0 <= b2 < w.inputs[v].len() && (
                                                #[trigger] w.inputs[v][b2]).node == dst));
                                    },
                                }
                            }
                            return Err(e);
                        },
                    }
                },
                None => {
                    proof {
                        assert(!w.outputs.contains_key(k));
                        lemma_leftover_inputs_entries(w, entries, done as int);
                        if leftover.as_map().contains_key(k) {
                            let j2 = choose|j2: int|
                                0 <= j2 < done && entries[j2].0 == k;
                            assert(entries[j2].0 == entries[j].0);
                            assert(false);
                        }
                        assert((*g).edges@ =~= edges0 + resolved_edges(
                            w,
                            entries,
                            done as int + 1,
                        ));
                    }
                    leftover.insert_new(k, entry.value);
                },
            }
            done = done + 1;
        }
        proof {
            assert(done == entries.len());
            lemma_leftover_inputs_final(w, entries);
            assert(edges0.is_prefix_of((*g).edges@)) by {
                assert((*g).edges@.subrange(0, edges0.len() as int) =~= edges0);
            }
        }
        let result = BuildContext {
            input_edges: leftover,
            output_edges,
            merged_values: AList::new(),
        };
        proof {
            assert(result@.alias =~= Map::<u32, u32>::empty());
            assert(result.wf());
        }
        Ok(result)
    }
}


/// What registering a whole port list under one value does to the context
/// state.
pub open spec fn spec_register_input_ports(w: WiringView, v: u32, ps: Seq<PortRef>) -> WiringView {
    WiringView { inputs: push_ports(w.inputs, canonical(w.alias, v), ps), ..w }
}

/// What registering a whole outgoing port list under one value does to
/// the context state.
pub open spec fn spec_register_output_ports(w: WiringView, v: u32, ps: Seq<PortRef>) -> WiringView {
    WiringView { outputs: push_ports(w.outputs, canonical(w.alias, v), ps), ..w }
}

/// Registering the values of `vals[0..count]` as incoming ports
/// `first..first + count` of one node, in order.
pub open spec fn spec_register_in_seq(
    w: WiringView,
    vals: Seq<crate::jeff_ir::ValuePort>,
    node: NodeId,
    count: int,
) -> WiringView
    decreases count,
{
    if count <= 0 {
        w
    } else {
        spec_register_input(
            spec_register_in_seq(w, vals, node, count - 1),
            vals[count - 1].id,
            PortRef { node, port: (count - 1) as usize },
        )
    }
}

/// Registering the values of `vals[0..count]` as outgoing ports of one
/// node, in order.
pub open spec fn spec_register_out_seq(
    w: WiringView,
    vals: Seq<crate::jeff_ir::ValuePort>,
    node: NodeId,
    count: int,
) -> WiringView
    decreases count,
{
    if count <= 0 {
        w
    } else {
        spec_register_output(
            spec_register_out_seq(w, vals, node, count - 1),
            vals[count - 1].id,
            PortRef { node, port: (count - 1) as usize },
        )
    }
}

/// Registration only adds entries; the alias map is untouched and every
/// port map is bounded by `n` if it was before and the new ports are.
pub proof fn lemma_register_in_seq_facts(
    w: WiringView,
    vals: Seq<crate::jeff_ir::ValuePort>,
    node: NodeId,
    count: int,
    n: nat,
)
    requires
        ports_bounded(w.inputs, n),
        node < n,
    ensures
        spec_register_in_seq(w, vals, node, count).alias == w.alias,
        spec_register_in_seq(w, vals, node, count).outputs == w.outputs,
        ports_bounded(spec_register_in_seq(w, vals, node, count).inputs, n),
    decreases count,
{
    if count > 0 {
        lemma_register_in_seq_facts(w, vals, node, count - 1, n);
        let w2 = spec_register_in_seq(w, vals, node, count - 1);
        let k = canonical(w2.alias, vals[count - 1].id);
        let m2 = spec_register_in_seq(w, vals, node, count).inputs;
        assert forall|k2: u32, i: int|
            m2.contains_key(k2) && 0 <= i < m2[k2].len() implies (#[trigger] m2[k2][i]).node
            < n by {
            if k2 == k {
                let cur = if w2.inputs.contains_key(k) {
                    w2.inputs[k]
                } else {
                    Seq::empty()
                };
                if i < cur.len() {
                    assert(m2[k2][i] == cur[i]);
                } else {
                    assert(m2[k2][i] == (PortRef { node, port: (count - 1) as usize }));
                }
            } else {
                assert(m2[k2] == w2.inputs[k2]);
            }
        }
    }
}

/// The outgoing-side counterpart of [`lemma_register_in_seq_facts`].
pub proof fn lemma_register_out_seq_facts(
    w: WiringView,
    vals: Seq<crate::jeff_ir::ValuePort>,
    node: NodeId,
    count: int,
    n: nat,
)
    requires
        ports_bounded(w.outputs, n),
        node < n,
    ensures
        spec_register_out_seq(w, vals, node, count).alias == w.alias,
        spec_register_out_seq(w, vals, node, count).inputs == w.inputs,
        ports_bounded(spec_register_out_seq(w, vals, node, count).outputs, n),
    decreases count,
{
    if count > 0 {
        lemma_register_out_seq_facts(w, vals, node, count - 1, n);
        let w2 = spec_register_out_seq(w, vals, node, count - 1);
        let k = canonical(w2.alias, vals[count - 1].id);
        let m2 = spec_register_out_seq(w, vals, node, count).outputs;
        assert forall|k2: u32, i: int|
            m2.contains_key(k2) && 0 <= i < m2[k2].len() implies (#[trigger] m2[k2][i]).node
            < n by {
            if k2 == k {
                let cur = if w2.outputs.contains_key(k) {
                    w2.outputs[k]
                } else {
                    Seq::empty()
                };
                if i < cur.len() {
                    assert(m2[k2][i] == cur[i]);
                } else {
                    assert(m2[k2][i] == (PortRef { node, port: (count - 1) as usize }));
                }
            } else {
                assert(m2[k2] == w2.outputs[k2]);
            }
        }
    }
}

impl BuildContext {
    /// Append a port list to the ports registered under the canonical
    /// value of `c` in `edges`.
    fn extend_into(edges: &mut AList<Vec<PortRef>>, c: u32, ps: Vec<PortRef>)
        requires
            old(edges).wf(),
        ensures
            (*final(edges)).wf(),
            (*final(edges)).as_map() == push_ports(old(edges).as_map(), c, ps@),
    {
        let ghost m0 = edges.as_map();
        match edges.remove(c) {
            Some(mut cur) => {
                let mut tail = ps;
                cur.append(&mut tail);
                edges.insert_new(c, cur);
                proof {
                    assert(edges.as_map() =~= push_ports(m0, c, ps@));
                }
            },
            None => {
                edges.insert_new(c, ps);
                proof {
                    assert(Seq::<PortRef>::empty() + ps@ =~= ps@);
                    assert(edges.as_map() =~= push_ports(m0, c, ps@));
                }
            },
        }
    }

    /// Register a whole list of incoming ports to a value at once.
    pub fn register_input_ports(&mut self, value_id: u32, ports: Vec<PortRef>)
        requires
            old(self).wf(),
        ensures
            (*final(self)).wf(),
            (*final(self))@ == spec_register_input_ports(old(self)@, value_id, ports@),
    {
        let c = self.earliest_id(value_id);
        Self::extend_into(&mut self.input_edges, c, ports);
    }

    /// Register a whole list of outgoing ports to a value at once.
    pub fn register_output_ports(&mut self, value_id: u32, ports: Vec<PortRef>)
        requires
            old(self).wf(),
        ensures
            (*final(self)).wf(),
            (*final(self))@ == spec_register_output_ports(old(self)@, value_id, ports@),
    {
        let c = self.earliest_id(value_id);
        Self::extend_into(&mut self.output_edges, c, ports);
    }

    /// Register the values of `vals[0..count]` as the incoming ports
    /// `0..count` of `node`, in order.
    pub fn register_inputs(
        &mut self,
        vals: &Vec<crate::jeff_ir::ValuePort>,
        count: usize,
        node: NodeId,
    )
        requires
            old(self).wf(),
            count <= vals@.len(),
        ensures
            (*final(self)).wf(),
            (*final(self))@ == spec_register_in_seq(old(self)@, vals@, node, count as int),
    {
        let ghost w0 = self@;
        for i in 0..count
            invariant
                w0 == old(self)@,
                count <= vals@.len(),
                self.wf(),
                self@ == spec_register_in_seq(w0, vals@, node, i as int),
        {
            self.register_input(vals[i].id, node, i);
        }
    }

    /// Register the values of `vals[0..count]` as the outgoing ports
    /// `0..count` of `node`, in order.
    pub fn register_outputs(
        &mut self,
        vals: &Vec<crate::jeff_ir::ValuePort>,
        count: usize,
        node: NodeId,
    )
        requires
            old(self).wf(),
            count <= vals@.len(),
        ensures
            (*final(self)).wf(),
            (*final(self))@ == spec_register_out_seq(old(self)@, vals@, node, count as int),
    {
        let ghost w0 = self@;
        for i in 0..count
            invariant
                w0 == old(self)@,
                count <= vals@.len(),
                self.wf(),
                self@ == spec_register_out_seq(w0, vals@, node, i as int),
        {
            self.register_output(vals[i].id, node, i);
        }
    }
}

/// Absorbing a resolved child context's leftover registrations, entry by
/// entry, input side first.
pub open spec fn spec_absorb_inputs(
    w: WiringView,
    entries: Seq<(u32, Seq<PortRef>)>,
    count: int,
) -> WiringView
    decreases count,
{
    if count <= 0 {
        w
    } else {
        spec_register_input_ports(
            spec_absorb_inputs(w, entries, count - 1),
            entries[count - 1].0,
            entries[count - 1].1,
        )
    }
}

/// Absorbing registrations adds ports only: the alias map is untouched.
pub proof fn lemma_absorb_inputs_alias(
    w: WiringView,
    entries: Seq<(u32, Seq<PortRef>)>,
    count: int,
)
    ensures
        spec_absorb_inputs(w, entries, count).alias == w.alias,
    decreases count,
{
    if count > 0 {
        lemma_absorb_inputs_alias(w, entries, count - 1);
    }
}

/// The outgoing-side counterpart of [`lemma_absorb_inputs_alias`].
pub proof fn lemma_absorb_outputs_alias(
    w: WiringView,
    entries: Seq<(u32, Seq<PortRef>)>,
    count: int,
)
    ensures
        spec_absorb_outputs(w, entries, count).alias == w.alias,
    decreases count,
{
    if count > 0 {
        lemma_absorb_outputs_alias(w, entries, count - 1);
    }
}

/// The outgoing-side counterpart of [`spec_absorb_inputs`].
pub open spec fn spec_absorb_outputs(
    w: WiringView,
    entries: Seq<(u32, Seq<PortRef>)>,
    count: int,
) -> WiringView
    decreases count,
{
    if count <= 0 {
        w
    } else {
        spec_register_output_ports(
            spec_absorb_outputs(w, entries, count - 1),
            entries[count - 1].0,
            entries[count - 1].1,
        )
    }
}

impl BuildContext {
    /// Hand every leftover registration of a resolved child scope to this
    /// context, under this context's own aliases.
    pub fn absorb(&mut self, child: BuildContext)
        requires
            old(self).wf(),
            child.wf(),
        ensures
            (*final(self)).wf(),
            (*final(self))@ == spec_absorb_outputs(
                spec_absorb_inputs(
                    old(self)@,
                    child.input_edges.entry_seq(),
                    child.input_edges.entry_seq().len() as int,
                ),
                child.output_edges.entry_seq(),
                child.output_edges.entry_seq().len() as int,
            ),
            (*final(self))@.alias == old(self)@.alias,
    {
        let ghost w0 = self@;
        let ghost in_entries = child.input_edges.entry_seq();
        let ghost out_entries = child.output_edges.entry_seq();
        proof {
            lemma_absorb_inputs_alias(w0, in_entries, in_entries.len() as int);
            lemma_absorb_outputs_alias(
                spec_absorb_inputs(w0, in_entries, in_entries.len() as int),
                out_entries,
                out_entries.len() as int,
            );
        }
        let BuildContext { input_edges, output_edges, merged_values: _ } = child;
        let mut rest_in = input_edges.entries;
        let mut done: usize = 0;
        let total_in = rest_in.len();
        proof {
            assert(in_entries.len() == total_in);
        }
        while rest_in.len() > 0
            invariant
                w0 == old(self)@,
                in_entries.len() == total_in,
                done + rest_in@.len() == in_entries.len(),
                forall|j: int|
                    0 <= j < rest_in@.len() ==> ((#[trigger] rest_in@[j]).key, rest_in@[j].value@)
                        == in_entries[done + j],
                self.wf(),
                self@ == spec_absorb_inputs(w0, in_entries, done as int),
            decreases rest_in@.len(),
        {
            let ghost rest0 = rest_in@;
            let entry = rest_in.remove(0);
            proof {
                assert((entry.key, entry.value@) == in_entries[done as int]);
                assert forall|j2: int|
                    0 <= j2 < rest_in@.len() implies ((#[trigger] rest_in@[j2]).key,
                rest_in@[j2].value@) == in_entries[done + 1 + j2] by {
                    assert(rest_in@[j2] == rest0[j2 + 1]);
                }
            }
            self.register_input_ports(entry.key, entry.value);
            done = done + 1;
        }
        let ghost mid = self@;
        let mut rest_out = output_edges.entries;
        let mut done2: usize = 0;
        let total_out = rest_out.len();
        proof {
            assert(spec_absorb_inputs(w0, in_entries, done as int) == mid);
            assert(out_entries.len() == total_out);
        }
        while rest_out.len() > 0
            invariant
                mid == spec_absorb_inputs(
                    w0,
                    in_entries,
                    in_entries.len() as int,
                ),
                w0 == old(self)@,
                out_entries.len() == total_out,
                done2 + rest_out@.len() == out_entries.len(),
                forall|j: int|
                    0 <= j < rest_out@.len() ==> ((#[trigger] rest_out@[j]).key,
                    rest_out@[j].value@) == out_entries[done2 + j],
                self.wf(),
                self@ == spec_absorb_outputs(mid, out_entries, done2 as int),
            decreases rest_out@.len(),
        {
            let ghost rest0 = rest_out@;
            let entry = rest_out.remove(0);
            proof {
                assert((entry.key, entry.value@) == out_entries[done2 as int]);
                assert forall|j2: int|
                    0 <= j2 < rest_out@.len() implies ((#[trigger] rest_out@[j2]).key,
                rest_out@[j2].value@) == out_entries[done2 + 1 + j2] by {
                    assert(rest_out@[j2] == rest0[j2 + 1]);
                }
            }
            self.register_output_ports(entry.key, entry.value);
            done2 = done2 + 1;
        }
    }
}


/// Module-wide registry of pending static call edges, keyed by function
/// index. Calls may name functions whose bodies are not built yet; the
/// edges are drawn once the whole table exists.
pub struct CallRegistry {
    /// Pending call ports, keyed by function index.
    pub calls: AList<Vec<PortRef>>,
}

impl View for CallRegistry {
    type V = Map<u32, Seq<PortRef>>;

    open spec fn view(&self) -> Map<u32, Seq<PortRef>> {
        self.calls.as_map()
    }
}

impl CallRegistry {
    /// The registry's entry list is well formed.
    pub open spec fn wf(self) -> bool {
        self.calls.wf()
    }

    /// An empty registry.
    pub fn new() -> (r: Self)
        ensures
            r.wf(),
            r@ == Map::<u32, Seq<PortRef>>::empty(),
            r.calls.entry_seq() == Seq::<(u32, Seq<PortRef>)>::empty(),
    {
        CallRegistry { calls: AList::new() }
    }

    /// Register an input port to a function call id.
    pub fn register_function_call(&mut self, function_id: u32, node: NodeId, port: usize)
        requires
            old(self).wf(),
        ensures
            (*final(self)).wf(),
            (*final(self))@ == push_port(old(self)@, function_id, PortRef { node, port }),
    {
        BuildContext::push_into(&mut self.calls, function_id, PortRef { node, port });
    }
}


/// Appending one bounded port keeps a port map bounded.
pub proof fn lemma_push_port_bounded(m: Map<u32, Seq<PortRef>>, k: u32, p: PortRef, n: nat)
    requires
        ports_bounded(m, n),
        p.node < n,
    ensures
        ports_bounded(push_port(m, k, p), n),
{
    let m2 = push_port(m, k, p);
    assert forall|k2: u32, i: int|
        m2.contains_key(k2) && 0 <= i < m2[k2].len() implies (#[trigger] m2[k2][i]).node < n by {
        if k2 == k {
            let cur = if m.contains_key(k) {
                m[k]
            } else {
                Seq::empty()
            };
            if i < cur.len() {
                assert(m2[k2][i] == m[k][i]);
            } else {
                assert(m2[k2][i] == p);
            }
        } else {
            assert(m2[k2] == m[k2]);
        }
    }
}

/// Both port maps of a context state are bounded by `n`.
pub open spec fn wiring_bounded(w: WiringView, n: nat) -> bool {
    ports_bounded(w.inputs, n) && ports_bounded(w.outputs, n)
}

/// Every port of the list points at a node below `n`.
pub open spec fn ports_seq_bounded(ps: Seq<PortRef>, n: nat) -> bool {
    forall|i: int| 0 <= i < ps.len() ==> (#[trigger] ps[i]).node < n
}

/// Every port list among the entries is bounded by `n`.
pub open spec fn entry_ports_bounded(entries: Seq<(u32, Seq<PortRef>)>, n: nat) -> bool {
    forall|j: int| 0 <= j < entries.len() ==> ports_seq_bounded((#[trigger] entries[j]).1, n)
}

/// Appending a list of bounded ports keeps a port map bounded.
pub proof fn lemma_push_ports_bounded(m: Map<u32, Seq<PortRef>>, k: u32, ps: Seq<PortRef>, n: nat)
    requires
        ports_bounded(m, n),
        ports_seq_bounded(ps, n),
    ensures
        ports_bounded(push_ports(m, k, ps), n),
{
    let m2 = push_ports(m, k, ps);
    assert forall|k2: u32, i: int|
        m2.contains_key(k2) && 0 <= i < m2[k2].len() implies (#[trigger] m2[k2][i]).node < n by {
        if k2 == k {
            let cur = if m.contains_key(k) {
                m[k]
            } else {
                Seq::empty()
            };
            if i < cur.len() {
                assert(m2[k2][i] == m[k][i]);
            } else {
                assert(m2[k2][i] == ps[i - cur.len()]);
            }
        } else {
            assert(m2[k2] == m[k2]);
        }
    }
}

/// Absorbing a resolved child's leftovers keeps every port map bounded
/// when the child's ports were bounded too.
pub proof fn lemma_absorb_bounded(
    w: WiringView,
    in_entries: Seq<(u32, Seq<PortRef>)>,
    out_entries: Seq<(u32, Seq<PortRef>)>,
    n: nat,
)
    requires
        ports_bounded(w.inputs, n),
        ports_bounded(w.outputs, n),
        entry_ports_bounded(in_entries, n),
        entry_ports_bounded(out_entries, n),
    ensures
        ports_bounded(
            spec_absorb_outputs(
                spec_absorb_inputs(w, in_entries, in_entries.len() as int),
                out_entries,
                out_entries.len() as int,
            ).inputs,
            n,
        ),
        ports_bounded(
            spec_absorb_outputs(
                spec_absorb_inputs(w, in_entries, in_entries.len() as int),
                out_entries,
                out_entries.len() as int,
            ).outputs,
            n,
        ),
{
    lemma_absorb_inputs_bounded(w, in_entries, in_entries.len() as int, n);
    let mid = spec_absorb_inputs(w, in_entries, in_entries.len() as int);
    lemma_absorb_outputs_bounded(mid, out_entries, out_entries.len() as int, n);
}

/// Absorbing input-side leftovers keeps the maps bounded.
pub proof fn lemma_absorb_inputs_bounded(
    w: WiringView,
    entries: Seq<(u32, Seq<PortRef>)>,
    count: int,
    n: nat,
)
    requires
        ports_bounded(w.inputs, n),
        ports_bounded(w.outputs, n),
        entry_ports_bounded(entries, n),
        count <= entries.len(),
    ensures
        ports_bounded(spec_absorb_inputs(w, entries, count).inputs, n),
        spec_absorb_inputs(w, entries, count).outputs == w.outputs,
        spec_absorb_inputs(w, entries, count).alias == w.alias,
    decreases count,
{
    if count > 0 {
        lemma_absorb_inputs_bounded(w, entries, count - 1, n);
        let w2 = spec_absorb_inputs(w, entries, count - 1);
        assert(ports_seq_bounded(entries[count - 1].1, n));
        lemma_push_ports_bounded(
            w2.inputs,
            canonical(w2.alias, entries[count - 1].0),
            entries[count - 1].1,
            n,
        );
    }
}

/// Absorbing output-side leftovers keeps the maps bounded.
pub proof fn lemma_absorb_outputs_bounded(
    w: WiringView,
    entries: Seq<(u32, Seq<PortRef>)>,
    count: int,
    n: nat,
)
    requires
        ports_bounded(w.inputs, n),
        ports_bounded(w.outputs, n),
        entry_ports_bounded(entries, n),
        count <= entries.len(),
    ensures
        ports_bounded(spec_absorb_outputs(w, entries, count).outputs, n),
        spec_absorb_outputs(w, entries, count).inputs == w.inputs,
        spec_absorb_outputs(w, entries, count).alias == w.alias,
    decreases count,
{
    if count > 0 {
        lemma_absorb_outputs_bounded(w, entries, count - 1, n);
        let w2 = spec_absorb_outputs(w, entries, count - 1);
        assert(ports_seq_bounded(entries[count - 1].1, n));
        lemma_push_ports_bounded(
            w2.outputs,
            canonical(w2.alias, entries[count - 1].0),
            entries[count - 1].1,
            n,
        );
    }
}


/// When an entry list with distinct keys describes a bounded port map,
/// each entry's port list is bounded too.
pub proof fn lemma_entries_bounded(entries: Seq<(u32, Seq<PortRef>)>, n: nat)
    requires
        distinct_keys(entries),
        ports_bounded(map_of(entries), n),
    ensures
        entry_ports_bounded(entries, n),
{
    assert forall|j: int| 0 <= j < entries.len() implies ports_seq_bounded(
        (#[trigger] entries[j]).1,
        n,
    ) by {
        lemma_map_of_index(entries, j);
        assert(map_of(entries)[entries[j].0] == entries[j].1);
        assert forall|i: int|
            0 <= i < entries[j].1.len() implies (#[trigger] entries[j].1[i]).node < n by {
            assert(map_of(entries)[entries[j].0][i] == entries[j].1[i]);
        }
    }
}


/// Elements of a prefix read the same through the longer sequence.
pub proof fn lemma_prefix_index<T>(s1: Seq<T>, s2: Seq<T>, i: int)
    requires
        s1.is_prefix_of(s2),
        0 <= i < s1.len(),
    ensures
        s2[i] == s1[i],
{
    assert(s1 =~= s2.subrange(0, s1.len() as int));
    assert(s2.subrange(0, s1.len() as int)[i] == s2[i]);
}

} // verus!
