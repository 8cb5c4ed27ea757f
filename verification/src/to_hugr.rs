//! Source-to-target translation: the build context's node-building
//! helpers, the region builder, and the module driver.

use vstd::prelude::*;
pub use crate::graph::graph_extended;
use crate::graph::{Graph, NodeData, NodeId, NodeOp};
use crate::jeff_ir::{JeffType, Operation, ValueId};
use crate::wiring::{
    spec_merge, spec_register_in_seq, spec_register_out_seq, spec_register_output, BuildContext,
    PortRef, WiringView,
};

verus! {

/// Error type for the source-to-target translation.
#[derive(Clone, Debug, PartialEq, Eq)]
pub enum JeffToHugrError {
    /// The inputs/outputs of a source operation are not compatible with
    /// the operation type.
    InvalidOperationIO {
        /// The operation name.
        op: String,
        /// The input types.
        input_types: Vec<JeffType>,
        /// The output types.
        output_types: Vec<JeffType>,
    },
    /// The source file is invalid: it refers to a function missing from
    /// the module's table.
    MalformedJeffFile,
    /// The emitted graph would be structurally invalid: a connection
    /// crosses scopes that share no common ancestor.
    InvalidHugrProgram {
        /// The producing node.
        src: NodeId,
        /// The consuming node.
        dst: NodeId,
    },
    /// The source operation is not supported.
    UnsupportedOperation {
        /// The operation name.
        op_name: String,
    },
    /// A registered input's value has no producer anywhere in the
    /// function: the hyperedge cannot be resolved.
    UnmatchedInput {
        /// The value with no producer.
        value: ValueId,
        /// The consuming node.
        node: NodeId,
        /// The offending operation: the first of the function's body
        /// whose inputs name the value, or the operation category when
        /// only the region boundary names it.
        op: String,
        /// The offending operation's declared input types.
        input_types: Vec<JeffType>,
        /// The offending operation's declared output types.
        output_types: Vec<JeffType>,
    },
}

impl JeffToHugrError {
    /// New [`JeffToHugrError::UnsupportedOperation`] error.
    pub fn unsupported_op(op_name: String) -> (r: Self)
        ensures
            r == (JeffToHugrError::UnsupportedOperation { op_name }),
    {
        Self::UnsupportedOperation { op_name }
    }

    /// New [`JeffToHugrError::InvalidOperationIO`] error, naming the
    /// operation and its declared input and output types.
    pub fn invalid_op_io(name: String, op: &Operation) -> (r: Self)
        ensures
            r matches JeffToHugrError::InvalidOperationIO { op: n, input_types, output_types }
                && n == name && input_types@ == op.input_types() && output_types@
                == op.output_types(),
    {
        let input_types = collect_input_types(op);
        let output_types = collect_output_types(op);
        Self::InvalidOperationIO { op: name, input_types, output_types }
    }
}

/// The declared types of an operation's inputs, in order.
pub fn collect_input_types(op: &Operation) -> (r: Vec<JeffType>)
    ensures
        r@ == op.input_types(),
{
    let mut input_types: Vec<JeffType> = Vec::new();
    for i in 0..op.inputs.len()
        invariant
            input_types@ =~= op.input_types().take(i as int),
    {
        input_types.push(op.inputs[i].ty);
        proof {
            assert(input_types@ =~= op.input_types().take(i as int + 1));
        }
    }
    proof {
        assert(input_types@ =~= op.input_types());
    }
    input_types
}

/// The declared types of an operation's outputs, in order.
pub fn collect_output_types(op: &Operation) -> (r: Vec<JeffType>)
    ensures
        r@ == op.output_types(),
{
    let mut output_types: Vec<JeffType> = Vec::new();
    for i in 0..op.outputs.len()
        invariant
            output_types@ =~= op.output_types().take(i as int),
    {
        output_types.push(op.outputs[i].ty);
        proof {
            assert(output_types@ =~= op.output_types().take(i as int + 1));
        }
    }
    proof {
        assert(output_types@ =~= op.output_types());
    }
    output_types
}

/// The name of an operation's category, as errors report it.
pub open spec fn spec_category_name(t: crate::jeff_ir::OpType) -> Seq<char> {
    match t {
        crate::jeff_ir::OpType::FloatOp(_) => "FloatOp"@,
        crate::jeff_ir::OpType::FuncOp(_) => "FuncOp"@,
        crate::jeff_ir::OpType::IntOp(_) => "IntOp"@,
        crate::jeff_ir::OpType::IntArrayOp(_) => "IntArrayOp"@,
        crate::jeff_ir::OpType::QubitOp(_) => "QubitOp"@,
        crate::jeff_ir::OpType::QubitRegisterOp(_) => "QubitRegisterOp"@,
        crate::jeff_ir::OpType::ControlFlowOp(_) => "ControlFlowOp"@,
        crate::jeff_ir::OpType::Unknown => "Operation"@,
    }
}

/// The name of an operation's category.
pub fn op_category_name(op: &Operation) -> (r: String)
    ensures
        r@ == spec_category_name(op.optype),
{
    match &op.optype {
        crate::jeff_ir::OpType::FloatOp(_) => "FloatOp".to_owned(),
        crate::jeff_ir::OpType::FuncOp(_) => "FuncOp".to_owned(),
        crate::jeff_ir::OpType::IntOp(_) => "IntOp".to_owned(),
        crate::jeff_ir::OpType::IntArrayOp(_) => "IntArrayOp".to_owned(),
        crate::jeff_ir::OpType::QubitOp(_) => "QubitOp".to_owned(),
        crate::jeff_ir::OpType::QubitRegisterOp(_) => "QubitRegisterOp".to_owned(),
        crate::jeff_ir::OpType::ControlFlowOp(_) => "ControlFlowOp".to_owned(),
        crate::jeff_ir::OpType::Unknown => "Operation".to_owned(),
    }
}

/// The first operation of the list that names `value` among its inputs,
/// if any.
pub fn find_consumer<'a>(ops: &'a Vec<Operation>, value: u32) -> (r: Option<&'a Operation>)
    ensures
        r matches Some(c) ==> (exists|i: int|
            #![trigger ops@[i]]
            0 <= i < ops@.len() && ops@[i] == *c && (forall|i2: int, j: int|
                0 <= i2 < i && 0 <= j < ops@[i2].inputs@.len() ==> (
                #[trigger] ops@[i2].inputs@[j]).id != value)) && (exists|j: int|
            0 <= j < c.inputs@.len() && (#[trigger] c.inputs@[j]).id == value),
        r is None ==> forall|i: int, j: int|
            0 <= i < ops@.len() && 0 <= j < ops@[i].inputs@.len() ==> (
            #[trigger] ops@[i].inputs@[j]).id != value,
{
    for i in 0..ops.len()
        invariant
            forall|i2: int, j: int|
                0 <= i2 < i && 0 <= j < ops@[i2].inputs@.len() ==> (
                #[trigger] ops@[i2].inputs@[j]).id != value,
    {
        let c = &ops[i];
        for j in 0..c.inputs.len()
            invariant
                *c == ops@[i as int],
                i < ops@.len(),
                forall|i2: int, j2: int|
                    0 <= i2 < i && 0 <= j2 < ops@[i2].inputs@.len() ==> (
                    #[trigger] ops@[i2].inputs@[j2]).id != value,
                forall|j2: int|
                    0 <= j2 < j ==> (#[trigger] c.inputs@[j2]).id != value,
        {
            if c.inputs[j].id == value {
                proof {
                    assert(ops@[i as int] == *c);
                    assert(c.inputs@[j as int].id == value);
                }
                return Some(c);
            }
        }
    }
    None
}

/// Once the pairwise merge fails at some prefix, it fails for any longer
/// prefix.
pub proof fn lemma_transparent_none(
    w: WiringView,
    ins: Seq<crate::jeff_ir::ValuePort>,
    outs: Seq<crate::jeff_ir::ValuePort>,
    j: int,
    k: int,
)
    requires
        spec_transparent_r(w, ins, outs, j) is None,
        j <= k,
    ensures
        spec_transparent_r(w, ins, outs, k) is None,
    decreases k,
{
    if k > j {
        lemma_transparent_none(w, ins, outs, j, k - 1);
    }
}

/// Merging each output of `outs[0..count]` into the input at the same
/// position, provided each pair has equal types. `None` when some pair's
/// types differ; the merges themselves always succeed, whichever way the
/// two values of a pair are numbered.
pub open spec fn spec_transparent_r(
    w: WiringView,
    ins: Seq<crate::jeff_ir::ValuePort>,
    outs: Seq<crate::jeff_ir::ValuePort>,
    count: int,
) -> Option<WiringView>
    decreases count,
{
    if count <= 0 {
        Some(w)
    } else {
        match spec_transparent_r(w, ins, outs, count - 1) {
            None => None,
            Some(w2) => {
                let i = ins[count - 1];
                let o = outs[count - 1];
                if i.ty == o.ty {
                    Some(spec_merge(w2, o.id, i.id))
                } else {
                    None
                }
            },
        }
    }
}

impl BuildContext {
    /// Emit a single node for the operation, and register its inputs and
    /// outputs.
    ///
    /// The node has `n_in` incoming and `n_out` outgoing dataflow ports;
    /// ports are matched to the operation's values in declaration order,
    /// stopping at whichever list is shorter.
    pub fn build_single_op(
        &mut self,
        op: NodeOp,
        jeff_op: &Operation,
        g: &mut Graph,
        parent: NodeId,
        n_in: usize,
        n_out: usize,
    ) -> (n: NodeId)
        requires
            old(self).wf(),
            parent < old(g).nodes@.len(),
        ensures
            (*final(self)).wf(),
            n == old(g).nodes@.len(),
            (*final(g)).nodes@ == old(g).nodes@.push(NodeData { parent: Some(parent), op }),
            (*final(g)).edges@ == old(g).edges@,
            (*final(g)).order_edges@ == old(g).order_edges@,
            old(g).wf() ==> (*final(g)).wf(),
            (*final(self))@ == spec_register_out_seq(
                spec_register_in_seq(
                    old(self)@,
                    jeff_op.inputs@,
                    old(g).nodes@.len() as usize,
                    min_len(n_in as int, jeff_op.inputs@.len() as int),
                ),
                jeff_op.outputs@,
                old(g).nodes@.len() as usize,
                min_len(n_out as int, jeff_op.outputs@.len() as int),
            ),
    {
        let node = g.add_node(parent, op);
        let in_count = if n_in < jeff_op.inputs.len() {
            n_in
        } else {
            jeff_op.inputs.len()
        };
        let out_count = if n_out < jeff_op.outputs.len() {
            n_out
        } else {
            jeff_op.outputs.len()
        };
        self.register_inputs(&jeff_op.inputs, in_count, node);
        self.register_outputs(&jeff_op.outputs, out_count, node);
        node
    }

    /// Mark a source operation that produces no node in the output.
    ///
    /// Merges each output value into the input value at the same
    /// position, so that the operation's consumers connect directly to
    /// its producers. Extra inputs past the outputs are ignored.
    ///
    /// # Errors
    ///
    /// Fails exactly when a pair's types differ, and then changes
    /// nothing: the pairs are all checked before the first merge.
    pub fn build_transparent_op(&mut self, jeff_op: &Operation, op_name: String) -> (r: Result<
        (),
        JeffToHugrError,
    >)
        requires
            old(self).wf(),
        ensures
            (*final(self)).wf(),
            r is Ok <==> spec_transparent_r(
                old(self)@,
                jeff_op.inputs@,
                jeff_op.outputs@,
                min_len(jeff_op.inputs@.len() as int, jeff_op.outputs@.len() as int),
            ) is Some,
            r is Ok ==> Some((*final(self))@) == spec_transparent_r(
                old(self)@,
                jeff_op.inputs@,
                jeff_op.outputs@,
                min_len(jeff_op.inputs@.len() as int, jeff_op.outputs@.len() as int),
            ),
            r is Err ==> *final(self) == *old(self),
            r matches Err(e) ==> e is UnsupportedOperation,
            forall|n: nat|
                #![trigger crate::wiring::wiring_bounded((*final(self))@, n)]
                crate::wiring::wiring_bounded(old(self)@, n) ==> crate::wiring::wiring_bounded(
                    (*final(self))@,
                    n,
                ),
    {
        let count = if jeff_op.inputs.len() < jeff_op.outputs.len() {
            jeff_op.inputs.len()
        } else {
            jeff_op.outputs.len()
        };
        for i in 0..count
            invariant
                count == min_len(jeff_op.inputs@.len() as int, jeff_op.outputs@.len() as int),
                *self == *old(self),
                self.wf(),
                forall|j: int|
                    0 <= j < i ==> (#[trigger] jeff_op.inputs@[j]).ty == jeff_op.outputs@[j].ty,
        {
            if !(jeff_op.inputs[i].ty == jeff_op.outputs[i].ty) {
                proof {
                    lemma_transparent_none(
                        old(self)@,
                        jeff_op.inputs@,
                        jeff_op.outputs@,
                        i as int + 1,
                        count as int,
                    );
                }
                return Err(JeffToHugrError::unsupported_op(op_name));
            }
        }
        let ghost w0 = self@;
        for i in 0..count
            invariant
                w0 == old(self)@,
                count == min_len(jeff_op.inputs@.len() as int, jeff_op.outputs@.len() as int),
                forall|j: int|
                    0 <= j < count ==> (#[trigger] jeff_op.inputs@[j]).ty == jeff_op.outputs@[j].ty,
                self.wf(),
                Some(self@) == spec_transparent_r(
                    w0,
                    jeff_op.inputs@,
                    jeff_op.outputs@,
                    i as int,
                ),
                forall|n: nat|
                    #![trigger crate::wiring::wiring_bounded(self@, n)]
                    crate::wiring::wiring_bounded(w0, n) ==> crate::wiring::wiring_bounded(
                        self@,
                        n,
                    ),
        {
            let ghost w_pre = self@;
            let input = &jeff_op.inputs[i];
            let output = &jeff_op.outputs[i];
            self.merge_with_earlier(output.id, input.id);
            proof {
                assert(Some(self@) == spec_transparent_r(
                    w0,
                    jeff_op.inputs@,
                    jeff_op.outputs@,
                    i as int + 1,
                ));
                assert forall|n: nat|
                    crate::wiring::wiring_bounded(w0, n) implies #[trigger] crate::wiring::wiring_bounded(
                    self@,
                    n,
                ) by {
                    assert(crate::wiring::wiring_bounded(w_pre, n));
                    lemma_merge_bounded(w_pre, output.id, input.id, n);
                }
            }
        }
        Ok(())
    }

    /// Emit a constant value and the node loading it, and register the
    /// operation's single output.
    ///
    /// # Errors
    ///
    /// Constant operations in the source have no inputs and a single
    /// output; anything else is rejected.
    pub fn build_constant_value(
        &mut self,
        value: crate::graph::ConstValue,
        jeff_op: &Operation,
        g: &mut Graph,
        parent: NodeId,
        op_name: String,
    ) -> (r: Result<(), JeffToHugrError>)
        requires
            old(self).wf(),
            parent < old(g).nodes@.len(),
        ensures
            (*final(self)).wf(),
            old(g).wf() ==> (*final(g)).wf(),
            (*final(g)).edges@ == old(g).edges@,
            (*final(g)).order_edges@ == old(g).order_edges@,
            r is Ok <==> (jeff_op.inputs@.len() == 0 && jeff_op.outputs@.len() == 1),
            r is Ok ==> (*final(g)).nodes@ == old(g).nodes@.push(
                NodeData { parent: Some(parent), op: NodeOp::LoadValue { value } },
            ) && (*final(self))@ == spec_register_output(
                old(self)@,
                jeff_op.outputs@[0].id,
                PortRef { node: old(g).nodes@.len() as usize, port: 0 },
            ),
            r is Err ==> (*final(g)).nodes@ == old(g).nodes@ && *final(self) == *old(self),
            r matches Err(e) ==> e is UnsupportedOperation,
    {
        if jeff_op.inputs.len() != 0 || jeff_op.outputs.len() != 1 {
            return Err(JeffToHugrError::unsupported_op(op_name));
        }
        let node = g.add_node(parent, NodeOp::LoadValue { value });
        self.register_output(jeff_op.outputs[0].id, node, 0);
        Ok(())
    }
}

/// The smaller of two lengths.
pub open spec fn min_len(a: int, b: int) -> int {
    if a < b {
        a
    } else {
        b
    }
}


/// The outcome of emitting one node for an operation: the node appended
/// under `parent`, no edges drawn, and the operation's values registered
/// onto the node's ports in declaration order, inputs first.
pub open spec fn spec_single_op(
    w0: WiringView,
    g0: Graph,
    parent: NodeId,
    nop: NodeOp,
    ins: Seq<crate::jeff_ir::ValuePort>,
    outs: Seq<crate::jeff_ir::ValuePort>,
    n_in: int,
    n_out: int,
    w1: WiringView,
    g1: Graph,
) -> bool {
    &&& g1.nodes@ == g0.nodes@.push(NodeData { parent: Some(parent), op: nop })
    &&& g1.edges@ == g0.edges@
    &&& g1.order_edges@ == g0.order_edges@
    &&& w1 == spec_register_out_seq(
        spec_register_in_seq(w0, ins, g0.nodes@.len() as usize, min_len(n_in, ins.len() as int)),
        outs,
        g0.nodes@.len() as usize,
        min_len(n_out, outs.len() as int),
    )
}

/// The outcome of emitting a constant-loading node: the node appended
/// under `parent`, and the operation's single output registered to its
/// port.
pub open spec fn spec_const_op(
    w0: WiringView,
    g0: Graph,
    parent: NodeId,
    value: crate::graph::ConstValue,
    outs: Seq<crate::jeff_ir::ValuePort>,
    w1: WiringView,
    g1: Graph,
) -> bool {
    &&& g1.nodes@ == g0.nodes@.push(
        NodeData { parent: Some(parent), op: NodeOp::LoadValue { value } },
    )
    &&& g1.edges@ == g0.edges@
    &&& g1.order_edges@ == g0.order_edges@
    &&& w1 == spec_register_output(
        w0,
        outs[0].id,
        PortRef { node: g0.nodes@.len() as usize, port: 0 },
    )
}

/// Bounds on registered ports only loosen as the graph grows.
pub proof fn lemma_ports_bounded_mono(m: Map<u32, Seq<PortRef>>, n1: nat, n2: nat)
    requires
        crate::wiring::ports_bounded(m, n1),
        n1 <= n2,
    ensures
        crate::wiring::ports_bounded(m, n2),
{
}

/// Merging values moves registered ports between keys but introduces no
/// new ports, so the bound on registered ports is kept.
pub proof fn lemma_merge_bounded(w: WiringView, a: u32, b: u32, n: nat)
    requires
        crate::wiring::ports_bounded(w.inputs, n),
        crate::wiring::ports_bounded(w.outputs, n),
    ensures
        crate::wiring::ports_bounded(spec_merge(w, a, b).inputs, n),
        crate::wiring::ports_bounded(spec_merge(w, a, b).outputs, n),
{
    let ca = crate::wiring::canonical(w.alias, a);
    let cb = crate::wiring::canonical(w.alias, b);
    if ca != cb {
        let lo = if ca < cb {
            ca
        } else {
            cb
        };
        let hi = if ca < cb {
            cb
        } else {
            ca
        };
        let m1 = spec_merge(w, a, b).inputs;
        assert forall|k: u32, i: int|
            m1.contains_key(k) && 0 <= i < m1[k].len() implies (#[trigger] m1[k][i]).node < n by {
            if w.inputs.contains_key(hi) && k == lo {
                let base = w.inputs.remove(hi);
                let cur = if base.contains_key(lo) {
                    base[lo]
                } else {
                    Seq::empty()
                };
                if i < cur.len() {
                    assert(m1[k][i] == w.inputs[lo][i]);
                } else {
                    assert(m1[k][i] == w.inputs[hi][i - cur.len()]);
                }
            } else {
                assert(m1[k] == w.inputs[k]);
            }
        }
        let m2 = spec_merge(w, a, b).outputs;
        assert forall|k: u32, i: int|
            m2.contains_key(k) && 0 <= i < m2[k].len() implies (#[trigger] m2[k][i]).node < n by {
            if w.outputs.contains_key(hi) && k == lo {
                let base = w.outputs.remove(hi);
                let cur = if base.contains_key(lo) {
                    base[lo]
                } else {
                    Seq::empty()
                };
                if i < cur.len() {
                    assert(m2[k][i] == w.outputs[lo][i]);
                } else {
                    assert(m2[k][i] == w.outputs[hi][i - cur.len()]);
                }
            } else {
                assert(m2[k] == w.outputs[k]);
            }
        }
    }
}


/// Nodes built under a deeper container extend the graph seen from any
/// outer container.
pub proof fn lemma_widen_container(g0: Graph, g1: Graph, inner: NodeId, outer: NodeId)
    requires
        graph_extended(g0, g1, inner),
        inner >= outer,
    ensures
        graph_extended(g0, g1, outer),
{
}

/// Build steps compose.
pub proof fn lemma_graph_extended_trans(g0: Graph, g1: Graph, g2: Graph, container: NodeId)
    requires
        graph_extended(g0, g1, container),
        graph_extended(g1, g2, container),
    ensures
        graph_extended(g0, g2, container),
{
    crate::wiring::lemma_prefix_trans(g0.nodes@, g1.nodes@, g2.nodes@);
    crate::wiring::lemma_prefix_trans(g0.edges@, g1.edges@, g2.edges@);
    crate::wiring::lemma_prefix_trans(g0.order_edges@, g1.order_edges@, g2.order_edges@);
    assert forall|i: int|
        g0.nodes@.len() <= i < g2.nodes@.len() implies (#[trigger] g2.nodes@[i]).parent is Some
        && g2.nodes@[i].parent->0 >= container by {
        if i < g1.nodes@.len() {
            assert(g2.nodes@[i] == g1.nodes@[i]);
        }
    }
}

/// Emitting a single node keeps the context's ports bounded by the grown
/// graph.
pub proof fn lemma_single_op_bounded(
    w0: WiringView,
    g0: Graph,
    parent: NodeId,
    nop: NodeOp,
    ins: Seq<crate::jeff_ir::ValuePort>,
    outs: Seq<crate::jeff_ir::ValuePort>,
    n_in: int,
    n_out: int,
    w1: WiringView,
    g1: Graph,
)
    requires
        spec_single_op(w0, g0, parent, nop, ins, outs, n_in, n_out, w1, g1),
        crate::wiring::wiring_bounded(w0, g0.nodes@.len() as nat),
    ensures
        crate::wiring::wiring_bounded(w1, g1.nodes@.len() as nat),
{
    let n = g1.nodes@.len() as nat;
    lemma_ports_bounded_mono(w0.inputs, g0.nodes@.len() as nat, n);
    lemma_ports_bounded_mono(w0.outputs, g0.nodes@.len() as nat, n);
    let node = g0.nodes@.len() as usize;
    crate::wiring::lemma_register_in_seq_facts(w0, ins, node, min_len(n_in, ins.len() as int), n);
    let w_mid = crate::wiring::spec_register_in_seq(w0, ins, node, min_len(n_in, ins.len() as int));
    crate::wiring::lemma_register_out_seq_facts(
        w_mid,
        outs,
        node,
        min_len(n_out, outs.len() as int),
        n,
    );
}

/// Emitting a constant keeps the context's ports bounded by the grown
/// graph.
pub proof fn lemma_const_op_bounded(
    w0: WiringView,
    g0: Graph,
    parent: NodeId,
    value: crate::graph::ConstValue,
    outs: Seq<crate::jeff_ir::ValuePort>,
    w1: WiringView,
    g1: Graph,
)
    requires
        spec_const_op(w0, g0, parent, value, outs, w1, g1),
        crate::wiring::wiring_bounded(w0, g0.nodes@.len() as nat),
    ensures
        crate::wiring::wiring_bounded(w1, g1.nodes@.len() as nat),
{
    let n = g1.nodes@.len() as nat;
    lemma_ports_bounded_mono(w0.inputs, g0.nodes@.len() as nat, n);
    lemma_ports_bounded_mono(w0.outputs, g0.nodes@.len() as nat, n);
    crate::wiring::lemma_push_port_bounded(
        w0.outputs,
        crate::wiring::canonical(w0.alias, outs[0].id),
        PortRef { node: g0.nodes@.len() as usize, port: 0 },
        n,
    );
}


/// One appended node at or below `parent` extends the graph.
pub proof fn lemma_extended_push(g0: Graph, g1: Graph, parent: NodeId, nd: NodeData)
    requires
        g1.nodes@ == g0.nodes@.push(nd),
        g1.edges@ == g0.edges@,
        g1.order_edges@ == g0.order_edges@,
        nd.parent is Some && nd.parent->0 >= parent,
    ensures
        graph_extended(g0, g1, parent),
{
    assert(g1.nodes@.subrange(0, g0.nodes@.len() as int) =~= g0.nodes@);
    assert(g1.edges@.subrange(0, g0.edges@.len() as int) =~= g0.edges@);
    assert(g1.order_edges@.subrange(0, g0.order_edges@.len() as int) =~= g0.order_edges@);
    assert forall|i: int|
        g0.nodes@.len() <= i < g1.nodes@.len() implies (#[trigger] g1.nodes@[i]).parent is Some
        && g1.nodes@[i].parent->0 >= parent by {
        assert(g1.nodes@[i] == nd);
    }
}

/// An untouched graph extends itself.
pub proof fn lemma_extended_refl(g0: Graph, g1: Graph, parent: NodeId)
    requires
        g1.nodes@ == g0.nodes@,
        g1.edges@ == g0.edges@,
        g1.order_edges@ == g0.order_edges@,
    ensures
        graph_extended(g0, g1, parent),
{
    assert(g1.nodes@.subrange(0, g0.nodes@.len() as int) =~= g0.nodes@);
    assert(g1.edges@.subrange(0, g0.edges@.len() as int) =~= g0.edges@);
    assert(g1.order_edges@.subrange(0, g0.order_edges@.len() as int) =~= g0.order_edges@);
}


/// Growing only the edge lists extends the graph.
pub proof fn lemma_extended_edges(g0: Graph, g1: Graph, parent: NodeId)
    requires
        g1.nodes@ == g0.nodes@,
        g0.edges@.is_prefix_of(g1.edges@),
        g0.order_edges@.is_prefix_of(g1.order_edges@),
    ensures
        graph_extended(g0, g1, parent),
{
    assert(g1.nodes@.subrange(0, g0.nodes@.len() as int) =~= g0.nodes@);
}

/// The target types of the ports from `start` on, in order.
pub fn hugr_types_of_ports(ports: &Vec<crate::jeff_ir::ValuePort>, start: usize) -> (r: Vec<
    crate::types::HugrType,
>)
    requires
        start <= ports@.len(),
    ensures
        r@ == ports@.skip(start as int).map_values(
            |p: crate::jeff_ir::ValuePort| crate::types::spec_jeff_to_hugr(p.ty),
        ),
{
    let ghost goal = ports@.skip(start as int).map_values(
        |p: crate::jeff_ir::ValuePort| crate::types::spec_jeff_to_hugr(p.ty),
    );
    let mut out: Vec<crate::types::HugrType> = Vec::new();
    let mut i = start;
    while i < ports.len()
        invariant
            goal == ports@.skip(start as int).map_values(
                |p: crate::jeff_ir::ValuePort| crate::types::spec_jeff_to_hugr(p.ty),
            ),
            start <= i <= ports@.len(),
            out@ =~= goal.take(i - start),
        decreases ports@.len() - i,
    {
        out.push(crate::types::jeff_to_hugr(ports[i].ty));
        proof {
            assert(goal[i - start] == crate::types::spec_jeff_to_hugr(
                ports@.skip(start as int)[i - start].ty,
            ));
            assert(ports@.skip(start as int)[i - start] == ports@[i as int]);
            assert(out@ =~= goal.take(i + 1 - start));
        }
        i = i + 1;
    }
    proof {
        assert(out@ =~= goal);
    }
    out
}

/// Whether two port lists declare the same types, position by position.
pub fn same_port_types(a: &Vec<crate::jeff_ir::ValuePort>, b: &Vec<crate::jeff_ir::ValuePort>) -> (r:
    bool)
    ensures
        r == (a@.map_values(|p: crate::jeff_ir::ValuePort| p.ty) == b@.map_values(
            |p: crate::jeff_ir::ValuePort| p.ty,
        )),
{
    let ghost sa = a@.map_values(|p: crate::jeff_ir::ValuePort| p.ty);
    let ghost sb = b@.map_values(|p: crate::jeff_ir::ValuePort| p.ty);
    if a.len() != b.len() {
        proof {
            assert(sa.len() != sb.len());
        }
        return false;
    }
    for i in 0..a.len()
        invariant
            sa == a@.map_values(|p: crate::jeff_ir::ValuePort| p.ty),
            sb == b@.map_values(|p: crate::jeff_ir::ValuePort| p.ty),
            a@.len() == b@.len(),
            forall|j: int| 0 <= j < i ==> sa[j] == sb[j],
    {
        if !(a[i].ty == b[i].ty) {
            proof {
                assert(sa[i as int] != sb[i as int]);
            }
            return false;
        }
        proof {
            assert(sa[i as int] == sb[i as int]);
        }
    }
    proof {
        assert(sa =~= sb);
    }
    true
}


/// Ports bounded under a smaller graph stay bounded as it grows.
pub proof fn lemma_wiring_mono(w: WiringView, n1: nat, n2: nat)
    requires
        crate::wiring::wiring_bounded(w, n1),
        n1 <= n2,
    ensures
        crate::wiring::wiring_bounded(w, n2),
{
    lemma_ports_bounded_mono(w.inputs, n1, n2);
    lemma_ports_bounded_mono(w.outputs, n1, n2);
}

/// Removing keys from a bounded port map keeps it bounded.
pub proof fn lemma_remove_keys_bounded(
    m: Map<u32, Seq<PortRef>>,
    s: Set<u32>,
    n: nat,
)
    requires
        crate::wiring::ports_bounded(m, n),
    ensures
        crate::wiring::ports_bounded(m.remove_keys(s), n),
{
    let m2 = m.remove_keys(s);
    assert forall|k: u32, i: int|
        m2.contains_key(k) && 0 <= i < m2[k].len() implies (#[trigger] m2[k][i]).node < n by {
        assert(m2[k] == m[k]);
    }
}

/// The context a region build starts from: empty, then the region's
/// sources registered as outgoing ports of the boundary input node, then
/// its targets as incoming ports of the boundary output node, in order.
pub open spec fn spec_region_seed(
    region: crate::jeff_ir::Region,
    in_node: NodeId,
    out_node: NodeId,
    n_in: int,
    n_out: int,
) -> WiringView {
    spec_register_in_seq(
        spec_register_out_seq(
            WiringView { inputs: Map::empty(), outputs: Map::empty(), alias: Map::empty() },
            region.sources@,
            in_node,
            min_len(n_in, region.sources@.len() as int),
        ),
        region.targets@,
        out_node,
        min_len(n_out, region.targets@.len() as int),
    )
}

/// The first `count` operations of a list translated in order, from the
/// state `(g0, w0, c0)` to the state `(g1, w1, c1)`: each consecutive
/// pair of states is one operation's successful outcome.
pub open spec fn spec_ops_built(
    ops: Seq<Operation>,
    count: int,
    g0: Graph,
    parent: NodeId,
    w0: WiringView,
    c0: Map<u32, Seq<PortRef>>,
    g1: Graph,
    w1: WiringView,
    c1: Map<u32, Seq<PortRef>>,
) -> bool
    decreases count,
{
    if count <= 0 {
        g1 == g0 && w1 == w0 && c1 == c0
    } else {
        exists|gm: Graph, wm: WiringView, cm: Map<u32, Seq<PortRef>>|
            spec_ops_built(ops, count - 1, g0, parent, w0, c0, gm, wm, cm)
                && #[trigger] crate::optype::spec_op_ok(
                ops[count - 1],
                gm,
                parent,
                wm,
                cm,
                g1,
                w1,
                c1,
            )
    }
}

/// The outcome of resolving a filled context `w` against the graph `gm`:
/// the nodes stand, the graph gains exactly the edges that resolution
/// draws - every registered output port of each value connected to every
/// registered input port of the same value, in some entry order of the
/// registered inputs - and the leftover context holds exactly the
/// registrations of values with no local match.
pub open spec fn spec_region_resolved(
    w: WiringView,
    gm: Graph,
    g1: Graph,
    left: WiringView,
) -> bool {
    &&& g1.nodes@ == gm.nodes@
    &&& (exists|entries: Seq<(u32, Seq<PortRef>)>|
        #![trigger crate::wiring::resolved_edges(w, entries, entries.len() as int)]
        crate::alist::distinct_keys(entries) && crate::alist::map_of(entries) == w.inputs
            && g1.edges@ == gm.edges@ + crate::wiring::resolved_edges(
            w,
            entries,
            entries.len() as int,
        ))
    &&& left.alias == Map::<u32, u32>::empty()
    &&& left.outputs == w.outputs
    &&& left.inputs == w.inputs.remove_keys(w.outputs.dom())
}

/// Why a region build fails: some prefix of its operations translates,
/// and the next operation fails with the reported error; or every
/// operation translates, and resolution meets a producer/consumer pair
/// whose scopes no ordering edge can join, reported as an invalid
/// output graph.
pub open spec fn spec_region_fails(
    ops: Seq<Operation>,
    g0: Graph,
    parent: NodeId,
    w0: WiringView,
    c0: Map<u32, Seq<PortRef>>,
    e: JeffToHugrError,
) -> bool {
    (exists|
        i: int,
        gm: Graph,
        wm: WiringView,
        cm: Map<u32, Seq<PortRef>>,
        g2: Graph,
        w2: WiringView,
        c2: Map<u32, Seq<PortRef>>,
    |
        0 <= i < ops.len() && spec_ops_built(ops, i, g0, parent, w0, c0, gm, wm, cm)
            && #[trigger] crate::optype::spec_op_err(ops[i], gm, parent, wm, cm, g2, w2, c2, e))
        || (e is InvalidHugrProgram && (exists|gm: Graph, wm: WiringView, cm: Map<
        u32,
        Seq<PortRef>,
    >| #[trigger] spec_ops_built(ops, ops.len() as int, g0, parent, w0, c0, gm, wm, cm)))
}

/// A translated prefix extends by one more successful operation.
pub proof fn lemma_ops_built_step(
    ops: Seq<Operation>,
    count: int,
    g0: Graph,
    parent: NodeId,
    w0: WiringView,
    c0: Map<u32, Seq<PortRef>>,
    gm: Graph,
    wm: WiringView,
    cm: Map<u32, Seq<PortRef>>,
    g1: Graph,
    w1: WiringView,
    c1: Map<u32, Seq<PortRef>>,
)
    requires
        0 <= count,
        spec_ops_built(ops, count, g0, parent, w0, c0, gm, wm, cm),
        crate::optype::spec_op_ok(ops[count], gm, parent, wm, cm, g1, w1, c1),
    ensures
        spec_ops_built(ops, count + 1, g0, parent, w0, c0, g1, w1, c1),
{
    let c2 = count + 1;
    assert(c2 - 1 == count);
    assert(spec_ops_built(ops, c2 - 1, g0, parent, w0, c0, gm, wm, cm));
    assert(crate::optype::spec_op_ok(ops[c2 - 1], gm, parent, wm, cm, g1, w1, c1));
    assert(spec_ops_built(ops, c2, g0, parent, w0, c0, g1, w1, c1));
}

/// Build one dataflow region of the source inside the given container
/// node: seed a fresh wiring context with the region's boundary ports,
/// translate each operation in order, then resolve the deferred wiring.
///
/// Returns the leftover context - registrations of values with no local
/// match - for the enclosing scope.
pub fn build_region(
    region: &crate::jeff_ir::Region,
    g: &mut Graph,
    container: NodeId,
    in_node: NodeId,
    out_node: NodeId,
    in_ports: usize,
    out_ports: usize,
    calls: &mut crate::wiring::CallRegistry,
) -> (r: Result<BuildContext, JeffToHugrError>)
    requires
        old(calls).wf(),
        old(g).wf(),
        container < old(g).nodes@.len(),
        in_node < old(g).nodes@.len(),
        out_node < old(g).nodes@.len(),
        crate::wiring::ports_bounded(old(calls)@, old(g).nodes@.len() as nat),
    ensures
        (*final(calls)).wf(),
        (*final(g)).wf(),
        graph_extended(*old(g), *final(g), container),
        crate::wiring::ports_bounded((*final(calls))@, (*final(g)).nodes@.len() as nat),
        r matches Ok(left) ==> left.wf() && left@.alias == Map::<u32, u32>::empty()
            && crate::wiring::wiring_bounded(left@, (*final(g)).nodes@.len() as nat),
        r matches Ok(left) ==> (exists|gm: Graph, wm: WiringView|
            #![trigger spec_region_resolved(wm, gm, *final(g), left@)]
            spec_ops_built(
                region.operations@,
                region.operations@.len() as int,
                *old(g),
                container,
                spec_region_seed(*region, in_node, out_node, in_ports as int, out_ports as int),
                old(calls)@,
                gm,
                wm,
                (*final(calls))@,
            ) && spec_region_resolved(wm, gm, *final(g), left@)),
        r matches Err(e) ==> spec_region_fails(
            region.operations@,
            *old(g),
            container,
            spec_region_seed(*region, in_node, out_node, in_ports as int, out_ports as int),
            old(calls)@,
            e,
        ),
    decreases *region, 0int,
{
    let ghost w_seed = spec_region_seed(
        *region,
        in_node,
        out_node,
        in_ports as int,
        out_ports as int,
    );
    let ghost c0 = old(calls)@;
    let mut ctx = BuildContext::new();
    let src_count = if in_ports < region.sources.len() {
        in_ports
    } else {
        region.sources.len()
    };
    ctx.register_outputs(&region.sources, src_count, in_node);
    let tgt_count = if out_ports < region.targets.len() {
        out_ports
    } else {
        region.targets.len()
    };
    ctx.register_inputs(&region.targets, tgt_count, out_node);
    proof {
        let w_empty = WiringView {
            inputs: Map::empty(),
            outputs: Map::empty(),
            alias: Map::empty(),
        };
        assert(crate::wiring::wiring_bounded(w_empty, old(g).nodes@.len() as nat));
        crate::wiring::lemma_register_out_seq_facts(
            w_empty,
            region.sources@,
            in_node,
            src_count as int,
            old(g).nodes@.len() as nat,
        );
        let w_mid = crate::wiring::spec_register_out_seq(
            w_empty,
            region.sources@,
            in_node,
            src_count as int,
        );
        crate::wiring::lemma_register_in_seq_facts(
            w_mid,
            region.targets@,
            out_node,
            tgt_count as int,
            old(g).nodes@.len() as nat,
        );
        lemma_extended_refl(*old(g), *g, container);
        assert(ctx@ == w_seed);
        assert(spec_ops_built(region.operations@, 0, *old(g), container, w_seed, c0, *g, ctx@, (*calls)@));
    }
    for i in 0..region.operations.len()
        invariant
            ctx.wf(),
            (*calls).wf(),
            (*g).wf(),
            container < (*g).nodes@.len(),
            graph_extended(*old(g), *g, container),
            crate::wiring::wiring_bounded(ctx@, (*g).nodes@.len() as nat),
            crate::wiring::ports_bounded((*calls)@, (*g).nodes@.len() as nat),
            spec_ops_built(
                region.operations@,
                i as int,
                *old(g),
                container,
                w_seed,
                c0,
                *g,
                ctx@,
                (*calls)@,
            ),
            c0 == old(calls)@,
            w_seed == spec_region_seed(
                *region,
                in_node,
                out_node,
                in_ports as int,
                out_ports as int,
            ),
        decreases *region, 0int, region.operations@.len() - i,
    {
        let jeff_op = &region.operations[i];
        proof {
            assert(decreases_to!(region.operations => region.operations@));
            assert(decreases_to!(region.operations@ => region.operations@[i as int]));
        }
        let ghost g_pre = *g;
        let ghost w_pre = ctx@;
        let ghost c_pre = (*calls)@;
        match crate::optype::build_hugr_op(jeff_op, g, container, &mut ctx, calls) {
            Ok(()) => {
                proof {
                    lemma_graph_extended_trans(*old(g), g_pre, *g, container);
                    assert(crate::optype::spec_op_ok(
                        region.operations@[i as int],
                        g_pre,
                        container,
                        w_pre,
                        c_pre,
                        *g,
                        ctx@,
                        (*calls)@,
                    ));
                    lemma_ops_built_step(
                        region.operations@,
                        i as int,
                        *old(g),
                        container,
                        w_seed,
                        c0,
                        g_pre,
                        w_pre,
                        c_pre,
                        *g,
                        ctx@,
                        (*calls)@,
                    );
                }
            },
            Err(e) => {
                proof {
                    lemma_graph_extended_trans(*old(g), g_pre, *g, container);
                    assert(crate::optype::spec_op_err(
                        region.operations@[i as int],
                        g_pre,
                        container,
                        w_pre,
                        c_pre,
                        *g,
                        ctx@,
                        (*calls)@,
                        e,
                    ));
                    assert(spec_region_fails(
                        region.operations@,
                        *old(g),
                        container,
                        w_seed,
                        c0,
                        e,
                    ));
                }
                return Err(e);
            },
        }
    }
    let ghost g_res = *g;
    let ghost w_res = ctx@;
    let ghost ctx_snap = ctx;
    match ctx.resolve(g) {
        Ok(left) => {
            proof {
                assert(graph_extended(g_res, *g, container)) by {
                    assert((*g).nodes@.subrange(0, g_res.nodes@.len() as int) =~= g_res.nodes@);
                }
                lemma_graph_extended_trans(*old(g), g_res, *g, container);
                lemma_ports_bounded_mono(
                    (*calls)@,
                    g_res.nodes@.len() as nat,
                    (*g).nodes@.len() as nat,
                );
                lemma_remove_keys_bounded(
                    w_res.inputs,
                    w_res.outputs.dom(),
                    (*g).nodes@.len() as nat,
                );
                assert(spec_region_resolved(w_res, g_res, *g, left@)) by {
                    let entries = ctx_snap.input_edges.entry_seq();
                    assert(crate::alist::distinct_keys(entries));
                    assert(crate::alist::map_of(entries) == w_res.inputs);
                    assert((*g).edges@ == g_res.edges@ + crate::wiring::resolved_edges(
                        w_res,
                        entries,
                        entries.len() as int,
                    ));
                }
                assert(spec_ops_built(
                    region.operations@,
                    region.operations@.len() as int,
                    *old(g),
                    container,
                    w_seed,
                    c0,
                    g_res,
                    w_res,
                    (*calls)@,
                ));
            }
            Ok(left)
        },
        Err(e) => {
            proof {
                assert(graph_extended(g_res, *g, container)) by {
                    assert((*g).nodes@.subrange(0, g_res.nodes@.len() as int) =~= g_res.nodes@);
                }
                lemma_graph_extended_trans(*old(g), g_res, *g, container);
                lemma_ports_bounded_mono(
                    (*calls)@,
                    g_res.nodes@.len() as nat,
                    (*g).nodes@.len() as nat,
                );
            }
            match e {
                crate::wiring::ResolveError::NoCommonScope { src, dst } => {
                    proof {
                        assert(spec_region_fails(
                            region.operations@,
                            *old(g),
                            container,
                            w_seed,
                            c0,
                            JeffToHugrError::InvalidHugrProgram { src, dst },
                        ));
                    }
                    Err(JeffToHugrError::InvalidHugrProgram { src, dst })
                },
            }
        },
    }
}

/// The graph `gb` is `g0` plus exactly the two boundary nodes of a
/// nested region under `container`: an input node carrying `in_types`
/// and an output node carrying `out_types`, in that order, with no new
/// edges.
pub open spec fn spec_boundary_added(
    g0: Graph,
    gb: Graph,
    container: NodeId,
    in_types: Seq<crate::types::HugrType>,
    out_types: Seq<crate::types::HugrType>,
) -> bool {
    &&& gb.nodes@.len() == g0.nodes@.len() + 2
    &&& gb.nodes@.take(g0.nodes@.len() as int) == g0.nodes@
    &&& (gb.nodes@[g0.nodes@.len() as int].op matches NodeOp::Input { types } && types@
        == in_types)
    &&& gb.nodes@[g0.nodes@.len() as int].parent == Some(container)
    &&& (gb.nodes@[g0.nodes@.len() as int + 1].op matches NodeOp::Output { types } && types@
        == out_types)
    &&& gb.nodes@[g0.nodes@.len() as int + 1].parent == Some(container)
    &&& gb.edges@ == g0.edges@
    &&& gb.order_edges@ == g0.order_edges@
}

/// Build a region nested inside a fresh container node: create the
/// container's boundary nodes, then build the region between them.
///
/// The container's first two children are its input and output boundary
/// nodes, in that order.
pub fn build_nested(
    region: &crate::jeff_ir::Region,
    in_types: Vec<crate::types::HugrType>,
    out_types: Vec<crate::types::HugrType>,
    g: &mut Graph,
    container: NodeId,
    calls: &mut crate::wiring::CallRegistry,
) -> (r: Result<BuildContext, JeffToHugrError>)
    requires
        old(calls).wf(),
        old(g).wf(),
        container < old(g).nodes@.len(),
        crate::wiring::ports_bounded(old(calls)@, old(g).nodes@.len() as nat),
    ensures
        (*final(calls)).wf(),
        (*final(g)).wf(),
        graph_extended(*old(g), *final(g), container),
        crate::wiring::ports_bounded((*final(calls))@, (*final(g)).nodes@.len() as nat),
        (*final(g)).nodes@.len() >= old(g).nodes@.len() + 2,
        (*final(g)).nodes@[old(g).nodes@.len() as int].op is Input,
        (*final(g)).nodes@[old(g).nodes@.len() as int].parent == Some(container),
        (*final(g)).nodes@[old(g).nodes@.len() as int + 1].op is Output,
        (*final(g)).nodes@[old(g).nodes@.len() as int + 1].parent == Some(container),
        r matches Ok(left) ==> left.wf() && left@.alias == Map::<u32, u32>::empty()
            && crate::wiring::wiring_bounded(left@, (*final(g)).nodes@.len() as nat),
        r matches Ok(left) ==> (exists|gb: Graph, gm: Graph, wm: WiringView|
            #![trigger spec_boundary_added(*old(g), gb, container, in_types@, out_types@), spec_region_resolved(wm, gm, *final(g), left@)]
            spec_boundary_added(*old(g), gb, container, in_types@, out_types@) && spec_ops_built(
                region.operations@,
                region.operations@.len() as int,
                gb,
                container,
                spec_region_seed(
                    *region,
                    old(g).nodes@.len() as usize,
                    (old(g).nodes@.len() + 1) as usize,
                    in_types@.len() as int,
                    out_types@.len() as int,
                ),
                old(calls)@,
                gm,
                wm,
                (*final(calls))@,
            ) && spec_region_resolved(wm, gm, *final(g), left@)),
        r matches Err(e) ==> (exists|gb: Graph|
            #![trigger spec_boundary_added(*old(g), gb, container, in_types@, out_types@)]
            spec_boundary_added(*old(g), gb, container, in_types@, out_types@)
                && spec_region_fails(
                region.operations@,
                gb,
                container,
                spec_region_seed(
                    *region,
                    old(g).nodes@.len() as usize,
                    (old(g).nodes@.len() + 1) as usize,
                    in_types@.len() as int,
                    out_types@.len() as int,
                ),
                old(calls)@,
                e,
            )),
    decreases *region, 1int,
{
    let n_in = in_types.len();
    let n_out = out_types.len();
    let ghost in_ty = in_types@;
    let ghost out_ty = out_types@;
    let ghost a0 = *g;
    let in_node = g.add_node(container, NodeOp::Input { types: in_types });
    let ghost a1 = *g;
    let out_node = g.add_node(container, NodeOp::Output { types: out_types });
    let ghost a2 = *g;
    proof {
        lemma_graph_extended_trans(a0, a1, a2, container);
        assert(spec_boundary_added(a0, a2, container, in_ty, out_ty)) by {
            assert(a2.nodes@.take(a0.nodes@.len() as int) =~= a0.nodes@);
            assert(a2.nodes@[a0.nodes@.len() as int] == a1.nodes@[a0.nodes@.len() as int]);
        }
    }
    let r = build_region(region, g, container, in_node, out_node, n_in, n_out, calls);
    proof {
        lemma_graph_extended_trans(a0, a2, *g, container);
        crate::wiring::lemma_prefix_index(a2.nodes@, (*g).nodes@, a0.nodes@.len() as int);
        crate::wiring::lemma_prefix_index(a2.nodes@, (*g).nodes@, a0.nodes@.len() as int + 1);
        let seed = spec_region_seed(
            *region,
            a0.nodes@.len() as usize,
            (a0.nodes@.len() + 1) as usize,
            in_ty.len() as int,
            out_ty.len() as int,
        );
        match &r {
            Ok(left) => {
                let (gm, wm): (Graph, WiringView) = choose|gm: Graph, wm: WiringView|
                    spec_ops_built(
                        region.operations@,
                        region.operations@.len() as int,
                        a2,
                        container,
                        seed,
                        old(calls)@,
                        gm,
                        wm,
                        (*calls)@,
                    ) && #[trigger] spec_region_resolved(wm, gm, *g, left@);
                assert(spec_region_resolved(wm, gm, *g, left@));
            },
            Err(e) => {
                assert(spec_region_fails(
                    region.operations@,
                    a2,
                    container,
                    seed,
                    old(calls)@,
                    *e,
                ));
            },
        }
    }
    r
}


/// Whether a node's operation is the translation of the given source
/// function's head: a definition node or a declaration node carrying the
/// function's name and translated signature.
pub open spec fn function_decl_matches(nop: NodeOp, f: crate::jeff_ir::Function) -> bool {
    match f {
        crate::jeff_ir::Function::Definition { name, inputs, outputs, body } => nop
            matches NodeOp::FuncDefn { name: n2, signature } && n2@ == name@ && signature.inputs@
            == inputs@.map_values(|t: JeffType| crate::types::spec_jeff_to_hugr(t))
            && signature.outputs@ == outputs@.map_values(
            |t: JeffType| crate::types::spec_jeff_to_hugr(t),
        ),
        crate::jeff_ir::Function::Declaration { name, inputs, outputs } => nop
            matches NodeOp::FuncDecl { name: n2, signature } && n2@ == name@ && signature.inputs@
            == inputs@.map_values(|t: JeffType| crate::types::spec_jeff_to_hugr(t))
            && signature.outputs@ == outputs@.map_values(
            |t: JeffType| crate::types::spec_jeff_to_hugr(t),
        ),
    }
}

/// The target types of a list of source types, in order.
pub open spec fn spec_types_to_hugr(ts: Seq<JeffType>) -> Seq<crate::types::HugrType> {
    ts.map_values(|t: JeffType| crate::types::spec_jeff_to_hugr(t))
}

/// One function of the table translated, from graph and call registry
/// `(g0, c0)` to `(g1, c1)`: a declaration adds its head node and
/// nothing else; a definition adds its head node and boundary pair,
/// builds its body region between them in operation order, resolves the
/// region's wiring, and leaves no input unmatched. The head node stands
/// at position `g0.nodes@.len()` either way.
pub open spec fn spec_function_built(
    f: crate::jeff_ir::Function,
    g0: Graph,
    c0: Map<u32, Seq<PortRef>>,
    g1: Graph,
    c1: Map<u32, Seq<PortRef>>,
) -> bool {
    match f {
        crate::jeff_ir::Function::Declaration { .. } => {
            &&& c1 == c0
            &&& g1.nodes@.len() == g0.nodes@.len() + 1
            &&& g1.nodes@.take(g0.nodes@.len() as int) == g0.nodes@
            &&& function_decl_matches(g1.nodes@.last().op, f)
            &&& g1.nodes@.last().parent == Some(0usize)
            &&& g1.edges@ == g0.edges@
            &&& g1.order_edges@ == g0.order_edges@
        },
        crate::jeff_ir::Function::Definition { name: _, inputs, outputs, body } => (exists|
            gfn: Graph,
            gh: Graph,
            gm: Graph,
            wm: WiringView,
            left: WiringView,
        |
            #![trigger spec_boundary_added(
                gfn,
                gh,
                g0.nodes@.len() as usize,
                spec_types_to_hugr(inputs@),
                spec_types_to_hugr(outputs@),
            ), spec_region_resolved(wm, gm, g1, left)]
            {
                &&& gfn.nodes@.len() == g0.nodes@.len() + 1
                &&& gfn.nodes@.take(g0.nodes@.len() as int) == g0.nodes@
                &&& function_decl_matches(gfn.nodes@.last().op, f)
                &&& gfn.nodes@.last().parent == Some(0usize)
                &&& gfn.edges@ == g0.edges@
                &&& gfn.order_edges@ == g0.order_edges@
                &&& spec_boundary_added(
                    gfn,
                    gh,
                    g0.nodes@.len() as usize,
                    spec_types_to_hugr(inputs@),
                    spec_types_to_hugr(outputs@),
                )
                &&& spec_ops_built(
                    body.operations@,
                    body.operations@.len() as int,
                    gh,
                    g0.nodes@.len() as usize,
                    spec_region_seed(
                        body,
                        (g0.nodes@.len() + 1) as usize,
                        (g0.nodes@.len() + 2) as usize,
                        inputs@.len() as int,
                        outputs@.len() as int,
                    ),
                    c0,
                    gm,
                    wm,
                    c1,
                )
                &&& spec_region_resolved(wm, gm, g1, left)
                &&& left.inputs == Map::<u32, Seq<PortRef>>::empty()
            }),
    }
}

/// A definition whose head, boundary and body were built and whose
/// wiring resolved, but with the input registrations of `value` left
/// unmatched: the function table cannot be completed, and the driver
/// reports the unmatched input.
pub open spec fn spec_function_unmatched(
    f: crate::jeff_ir::Function,
    g0: Graph,
    c0: Map<u32, Seq<PortRef>>,
    value: u32,
) -> bool {
    match f {
        crate::jeff_ir::Function::Declaration { .. } => false,
        crate::jeff_ir::Function::Definition { name: _, inputs, outputs, body } => (exists|
            gfn: Graph,
            gh: Graph,
            gm: Graph,
            wm: WiringView,
            c1: Map<u32, Seq<PortRef>>,
            g2: Graph,
            left: WiringView,
        |
            #![trigger spec_boundary_added(
                gfn,
                gh,
                g0.nodes@.len() as usize,
                spec_types_to_hugr(inputs@),
                spec_types_to_hugr(outputs@),
            ), spec_ops_built(
                body.operations@,
                body.operations@.len() as int,
                gh,
                g0.nodes@.len() as usize,
                spec_region_seed(
                    body,
                    (g0.nodes@.len() + 1) as usize,
                    (g0.nodes@.len() + 2) as usize,
                    inputs@.len() as int,
                    outputs@.len() as int,
                ),
                c0,
                gm,
                wm,
                c1,
            ), spec_region_resolved(wm, gm, g2, left)]
            {
                &&& gfn.nodes@.len() == g0.nodes@.len() + 1
                &&& gfn.nodes@.take(g0.nodes@.len() as int) == g0.nodes@
                &&& function_decl_matches(gfn.nodes@.last().op, f)
                &&& spec_boundary_added(
                    gfn,
                    gh,
                    g0.nodes@.len() as usize,
                    spec_types_to_hugr(inputs@),
                    spec_types_to_hugr(outputs@),
                )
                &&& spec_ops_built(
                    body.operations@,
                    body.operations@.len() as int,
                    gh,
                    g0.nodes@.len() as usize,
                    spec_region_seed(
                        body,
                        (g0.nodes@.len() + 1) as usize,
                        (g0.nodes@.len() + 2) as usize,
                        inputs@.len() as int,
                        outputs@.len() as int,
                    ),
                    c0,
                    gm,
                    wm,
                    c1,
                )
                &&& spec_region_resolved(wm, gm, g2, left)
                &&& left.inputs.contains_key(value)
            }),
    }
}

/// The payload an unmatched-input error carries: the offending
/// operation, found as the first of the failing definition's body whose
/// inputs name the value, with its declared input and output types - or
/// the region boundary, reported as `Region` with empty rows, when no
/// operation names it.
pub open spec fn spec_unmatched_payload(
    f: crate::jeff_ir::Function,
    value: u32,
    nm: Seq<char>,
    its: Seq<JeffType>,
    ots: Seq<JeffType>,
) -> bool {
    match f {
        crate::jeff_ir::Function::Declaration { .. } => false,
        crate::jeff_ir::Function::Definition { name: _, inputs: _, outputs: _, body } => {
            let ops = body.operations@;
            ||| (exists|oi: int|
                #![trigger ops[oi]]
                0 <= oi < ops.len() && (forall|oi2: int, j: int|
                    0 <= oi2 < oi && 0 <= j < ops[oi2].inputs@.len() ==> (
                    #[trigger] ops[oi2].inputs@[j]).id != value) && (exists|j: int|
                    0 <= j < ops[oi].inputs@.len() && (#[trigger] ops[oi].inputs@[j]).id == value)
                    && nm == spec_category_name(ops[oi].optype) && its == ops[oi].input_types()
                    && ots == ops[oi].output_types())
            ||| ((forall|oi: int, j: int|
                0 <= oi < ops.len() && 0 <= j < ops[oi].inputs@.len() ==> (
                #[trigger] ops[oi].inputs@[j]).id != value) && nm == "Region"@ && its.len() == 0
                && ots.len() == 0)
        },
    }
}

/// A definition whose head and boundary were built, but whose body
/// region's translation fails with the reported error.
pub open spec fn spec_function_fails(
    f: crate::jeff_ir::Function,
    g0: Graph,
    c0: Map<u32, Seq<PortRef>>,
    e: JeffToHugrError,
) -> bool {
    match f {
        crate::jeff_ir::Function::Declaration { .. } => false,
        crate::jeff_ir::Function::Definition { name: _, inputs, outputs, body } => (exists|
            gfn: Graph,
            gh: Graph,
        |
            #![trigger spec_boundary_added(
                gfn,
                gh,
                g0.nodes@.len() as usize,
                spec_types_to_hugr(inputs@),
                spec_types_to_hugr(outputs@),
            )]
            {
                &&& gfn.nodes@.len() == g0.nodes@.len() + 1
                &&& gfn.nodes@.take(g0.nodes@.len() as int) == g0.nodes@
                &&& function_decl_matches(gfn.nodes@.last().op, f)
                &&& spec_boundary_added(
                    gfn,
                    gh,
                    g0.nodes@.len() as usize,
                    spec_types_to_hugr(inputs@),
                    spec_types_to_hugr(outputs@),
                )
                &&& spec_region_fails(
                    body.operations@,
                    gh,
                    g0.nodes@.len() as usize,
                    spec_region_seed(
                        body,
                        (g0.nodes@.len() + 1) as usize,
                        (g0.nodes@.len() + 2) as usize,
                        inputs@.len() as int,
                        outputs@.len() as int,
                    ),
                    c0,
                    e,
                )
            }),
    }
}

/// The first `count` functions of the table translated in order, from
/// `(g0, c0)` to `(g1, c1)`; `fns[i]` is the node id of function `i`'s
/// head node.
pub open spec fn spec_funcs_built(
    fs: Seq<crate::jeff_ir::Function>,
    count: int,
    g0: Graph,
    c0: Map<u32, Seq<PortRef>>,
    g1: Graph,
    c1: Map<u32, Seq<PortRef>>,
    fns: Seq<NodeId>,
) -> bool
    decreases count,
{
    if count <= 0 {
        g1 == g0 && c1 == c0
    } else {
        exists|gm: Graph, cm: Map<u32, Seq<PortRef>>|
            spec_funcs_built(fs, count - 1, g0, c0, gm, cm, fns) && #[trigger] spec_function_built(
                fs[count - 1],
                gm,
                cm,
                g1,
                c1,
            ) && count - 1 < fns.len() && fns[count - 1] == gm.nodes@.len() as usize
    }
}

/// A translated prefix of the function table extends by one more
/// function.
pub proof fn lemma_funcs_built_step(
    fs: Seq<crate::jeff_ir::Function>,
    count: int,
    g0: Graph,
    c0: Map<u32, Seq<PortRef>>,
    gm: Graph,
    cm: Map<u32, Seq<PortRef>>,
    g1: Graph,
    c1: Map<u32, Seq<PortRef>>,
    fns: Seq<NodeId>,
)
    requires
        0 <= count < fns.len(),
        spec_funcs_built(fs, count, g0, c0, gm, cm, fns),
        spec_function_built(fs[count], gm, cm, g1, c1),
        fns[count] == gm.nodes@.len() as usize,
    ensures
        spec_funcs_built(fs, count + 1, g0, c0, g1, c1, fns),
{
    let c2 = count + 1;
    assert(c2 - 1 == count);
    assert(spec_funcs_built(fs, c2 - 1, g0, c0, gm, cm, fns));
    assert(spec_function_built(fs[c2 - 1], gm, cm, g1, c1));
    assert(spec_funcs_built(fs, c2, g0, c0, g1, c1, fns));
}

/// The chain over a prefix of the head-node list holds of any extension
/// of that list: the chain reads only the positions below `count`.
pub proof fn lemma_funcs_built_fns_grow(
    fs: Seq<crate::jeff_ir::Function>,
    count: int,
    g0: Graph,
    c0: Map<u32, Seq<PortRef>>,
    g1: Graph,
    c1: Map<u32, Seq<PortRef>>,
    fns1: Seq<NodeId>,
    fns2: Seq<NodeId>,
)
    requires
        0 <= count,
        spec_funcs_built(fs, count, g0, c0, g1, c1, fns1),
        fns1.is_prefix_of(fns2),
    ensures
        spec_funcs_built(fs, count, g0, c0, g1, c1, fns2),
    decreases count,
{
    if count > 0 {
        let (gm, cm): (Graph, Map<u32, Seq<PortRef>>) = choose|
            gm: Graph,
            cm: Map<u32, Seq<PortRef>>,
        |
            spec_funcs_built(fs, count - 1, g0, c0, gm, cm, fns1) && #[trigger] spec_function_built(
                fs[count - 1],
                gm,
                cm,
                g1,
                c1,
            ) && count - 1 < fns1.len() && fns1[count - 1] == gm.nodes@.len() as usize;
        lemma_funcs_built_fns_grow(fs, count - 1, g0, c0, gm, cm, fns1, fns2);
        assert(fns2[count - 1] == fns1[count - 1]);
        assert(spec_funcs_built(fs, count, g0, c0, g1, c1, fns2));
    }
}

/// The static call edges drawn for one function's pending call ports:
/// from the head node's outgoing port 0 to each recorded port, in
/// order.
pub open spec fn spec_call_row(fn_node: NodeId, ports: Seq<PortRef>) -> Seq<crate::graph::Edge> {
    Seq::new(
        ports.len(),
        |j: int|
            crate::graph::Edge {
                src: fn_node,
                src_port: 0,
                dst: ports[j].node,
                dst_port: ports[j].port,
            },
    )
}

/// The static call edges drawn for the first `done` entries of the call
/// registry, in entry order.
pub open spec fn spec_call_edges(
    fns: Seq<NodeId>,
    entries: Seq<(u32, Seq<PortRef>)>,
    done: int,
) -> Seq<crate::graph::Edge>
    decreases done,
{
    if done <= 0 {
        Seq::empty()
    } else {
        spec_call_edges(fns, entries, done - 1) + spec_call_row(
            fns[entries[done - 1].0 as int],
            entries[done - 1].1,
        )
    }
}

/// The call edges of one more registry entry append its row.
pub proof fn lemma_call_edges_step(fns: Seq<NodeId>, entries: Seq<(u32, Seq<PortRef>)>, done: int)
    requires
        0 <= done,
    ensures
        spec_call_edges(fns, entries, done + 1) == spec_call_edges(fns, entries, done)
            + spec_call_row(fns[entries[done].0 as int], entries[done].1),
{
    let c2 = done + 1;
    assert(c2 - 1 == done);
    assert(spec_call_edges(fns, entries, c2) == spec_call_edges(fns, entries, c2 - 1)
        + spec_call_row(fns[entries[c2 - 1].0 as int], entries[c2 - 1].1));
}

/// Translate a source program into a target graph.
///
/// The graph's root is a module node; each source function becomes one
/// function node under it - a definition with its body region built
/// inside, or a bare declaration. Static call edges resolve only after
/// every function is built, so calls may name functions that come later
/// in the table; a call naming a function outside the table fails with
/// [`JeffToHugrError::MalformedJeffFile`], and an input left without a
/// producer after a function's wiring resolves fails with
/// [`JeffToHugrError::UnmatchedInput`].
pub fn jeff_to_hugr(module: &crate::jeff_ir::Module) -> (r: Result<Graph, JeffToHugrError>)
    ensures
        r matches Ok(g) ==> g.wf() && g.nodes@.len() > 0 && g.nodes@[0].op is Module
            && g.nodes@[0].parent is None && (exists|fns: Seq<NodeId>|
            #![trigger fns.len()]
            fns.len() == module.functions@.len() && (forall|i: int|
                0 <= i < fns.len() ==> (#[trigger] fns[i]) < g.nodes@.len() && g.nodes@[fns[i] as int].parent
                    == Some(0usize) && function_decl_matches(
                    g.nodes@[fns[i] as int].op,
                    module.functions@[i],
                ))),
        r matches Ok(g) ==> (exists|
            fns: Seq<NodeId>,
            gr: Graph,
            gfuncs: Graph,
            cfin: Map<u32, Seq<PortRef>>,
            entries: Seq<(u32, Seq<PortRef>)>,
        |
            #![trigger spec_funcs_built(
                module.functions@,
                module.functions@.len() as int,
                gr,
                Map::<u32, Seq<PortRef>>::empty(),
                gfuncs,
                cfin,
                fns,
            ), crate::alist::map_of(entries)]
            {
                &&& gr.nodes@ == seq![
                    NodeData { parent: None, op: NodeOp::Module },
                ]
                &&& gr.edges@ == Seq::<crate::graph::Edge>::empty()
                &&& gr.order_edges@ == Seq::<crate::graph::OrderEdge>::empty()
                &&& fns.len() == module.functions@.len()
                &&& (forall|i: int, j: int| 0 <= i < j < fns.len() ==> fns[i] < fns[j])
                &&& spec_funcs_built(
                    module.functions@,
                    module.functions@.len() as int,
                    gr,
                    Map::<u32, Seq<PortRef>>::empty(),
                    gfuncs,
                    cfin,
                    fns,
                )
                &&& crate::alist::distinct_keys(entries)
                &&& crate::alist::map_of(entries) == cfin
                &&& (forall|j: int|
                    0 <= j < entries.len() ==> (#[trigger] entries[j]).0
                        < module.functions@.len())
                &&& g.nodes@ == gfuncs.nodes@
                &&& g.order_edges@ == gfuncs.order_edges@
                &&& g.edges@ == gfuncs.edges@ + spec_call_edges(
                    fns,
                    entries,
                    entries.len() as int,
                )
            }),
        r matches Err(e) ==> (exists|
            i: int,
            gr: Graph,
            gp: Graph,
            cp: Map<u32, Seq<PortRef>>,
            fnsp: Seq<NodeId>,
        |
            #![trigger spec_funcs_built(
                module.functions@,
                i,
                gr,
                Map::<u32, Seq<PortRef>>::empty(),
                gp,
                cp,
                fnsp,
            )]
            {
                &&& gr.nodes@ == seq![
                    NodeData { parent: None, op: NodeOp::Module },
                ]
                &&& gr.edges@ == Seq::<crate::graph::Edge>::empty()
                &&& gr.order_edges@ == Seq::<crate::graph::OrderEdge>::empty()
                &&& 0 <= i <= module.functions@.len()
                &&& spec_funcs_built(
                    module.functions@,
                    i,
                    gr,
                    Map::<u32, Seq<PortRef>>::empty(),
                    gp,
                    cp,
                    fnsp,
                )
                &&& (match e {
                    JeffToHugrError::MalformedJeffFile => (i == module.functions@.len() && (exists|
                        fid: u32,
                    |
                        #[trigger] cp.contains_key(fid) && fid as int
                            >= module.functions@.len())) || (i < module.functions@.len()
                        && spec_function_fails(module.functions@[i], gp, cp, e)),
                    JeffToHugrError::UnmatchedInput { value, node: _, op, input_types, output_types } => i
                        < module.functions@.len() && ((spec_function_unmatched(
                        module.functions@[i],
                        gp,
                        cp,
                        value,
                    ) && spec_unmatched_payload(
                        module.functions@[i],
                        value,
                        op@,
                        input_types@,
                        output_types@,
                    )) || spec_function_fails(module.functions@[i], gp, cp, e)),
                    _ => i < module.functions@.len() && spec_function_fails(
                        module.functions@[i],
                        gp,
                        cp,
                        e,
                    ),
                })
            }),
        (forall|i: int|
            0 <= i < module.functions@.len() ==> (#[trigger] module.functions@[i]) is Declaration)
            ==> r is Ok,
{
    let mut g = Graph::new();
    let root = g.add_root(NodeOp::Module);
    let mut calls = crate::wiring::CallRegistry::new();
    let mut function_nodes: Vec<NodeId> = Vec::new();
    let ghost g_root = g;
    proof {
        assert(g_root.nodes@ =~= seq![NodeData { parent: None, op: NodeOp::Module }]);
    }
    for idx in 0..module.functions.len()
        invariant
            g.wf(),
            g.nodes@.len() > 0,
            g.nodes@[0].op is Module,
            g.nodes@[0].parent is None,
            calls.wf(),
            crate::wiring::ports_bounded(calls@, g.nodes@.len() as nat),
            function_nodes@.len() == idx,
            forall|j: int|
                0 <= j < idx ==> (#[trigger] function_nodes@[j]) < g.nodes@.len()
                    && g.nodes@[function_nodes@[j] as int].parent == Some(0usize)
                    && function_decl_matches(
                    g.nodes@[function_nodes@[j] as int].op,
                    module.functions@[j],
                ),
            forall|j1: int, j2: int|
                0 <= j1 < j2 < idx ==> function_nodes@[j1] < function_nodes@[j2],
            g_root.nodes@ == seq![NodeData { parent: None, op: NodeOp::Module }],
            g_root.edges@ == Seq::<crate::graph::Edge>::empty(),
            g_root.order_edges@ == Seq::<crate::graph::OrderEdge>::empty(),
            spec_funcs_built(
                module.functions@,
                idx as int,
                g_root,
                Map::<u32, Seq<PortRef>>::empty(),
                g,
                calls@,
                function_nodes@,
            ),
            (forall|i: int|
                0 <= i < module.functions@.len() ==> (#[trigger] module.functions@[i]) is Declaration)
                ==> calls@ =~= Map::<u32, Seq<PortRef>>::empty(),
    {
        let ghost g_pre = g;
        let ghost calls_pre = calls@;
        match &module.functions[idx] {
            crate::jeff_ir::Function::Definition { name, inputs, outputs, body } => {
                let signature = crate::types::jeff_signature_to_hugr(inputs, outputs);
                let fn_node = g.add_node(0, NodeOp::FuncDefn { name: name.clone(), signature });
                let ghost g_head = g;
                let in_node = g.add_node(
                    fn_node,
                    NodeOp::Input { types: crate::types::jeff_types_to_hugr(inputs) },
                );
                let out_node = g.add_node(
                    fn_node,
                    NodeOp::Output { types: crate::types::jeff_types_to_hugr(outputs) },
                );
                let ghost g_fn = g;
                proof {
                    lemma_ports_bounded_mono(
                        calls@,
                        g_pre.nodes@.len() as nat,
                        g.nodes@.len() as nat,
                    );
                    assert(decreases_to!(module.functions => module.functions@));
                    assert(decreases_to!(module.functions@ => module.functions@[idx as int]));
                }
                let left = match build_region(
                    body,
                    &mut g,
                    fn_node,
                    in_node,
                    out_node,
                    inputs.len(),
                    outputs.len(),
                    &mut calls,
                ) {
                    Ok(l) => l,
                    Err(e) => {
                        proof {
                            assert(spec_function_fails(
                                module.functions@[idx as int],
                                g_pre,
                                calls_pre,
                                e,
                            )) by {
                                assert(fn_node == g_pre.nodes@.len() as usize);
                                assert(in_node == (g_pre.nodes@.len() + 1) as usize);
                                assert(out_node == (g_pre.nodes@.len() + 2) as usize);
                                assert(spec_boundary_added(
                                    g_head,
                                    g_fn,
                                    g_pre.nodes@.len() as usize,
                                    spec_types_to_hugr(inputs@),
                                    spec_types_to_hugr(outputs@),
                                )) by {
                                    assert(g_fn.nodes@.take(g_head.nodes@.len() as int)
                                        =~= g_head.nodes@);
                                    assert(g_fn.nodes@[g_head.nodes@.len() as int].op
                                        matches NodeOp::Input { types } && types@
                                        =~= spec_types_to_hugr(inputs@));
                                    assert(g_fn.nodes@[g_head.nodes@.len() as int + 1].op
                                        matches NodeOp::Output { types } && types@
                                        =~= spec_types_to_hugr(outputs@));
                                }
                                assert(spec_region_fails(
                                    body.operations@,
                                    g_fn,
                                    g_pre.nodes@.len() as usize,
                                    spec_region_seed(
                                        *body,
                                        (g_pre.nodes@.len() + 1) as usize,
                                        (g_pre.nodes@.len() + 2) as usize,
                                        inputs@.len() as int,
                                        outputs@.len() as int,
                                    ),
                                    calls_pre,
                                    e,
                                ));
                            }
                            assert(spec_funcs_built(
                                module.functions@,
                                idx as int,
                                g_root,
                                Map::<u32, Seq<PortRef>>::empty(),
                                g_pre,
                                calls_pre,
                                function_nodes@,
                            ));
                        }
                        return Err(e);
                    },
                };
                if left.input_edges.len() > 0 {
                    let value = left.input_edges.key_at(0);
                    let ports = left.input_edges.value_at(0);
                    let node: NodeId = if ports.len() > 0 {
                        ports[0].node
                    } else {
                        0
                    };
                    let found = find_consumer(&body.operations, value);
                    let (op_name, input_types, output_types) = match found {
                        Some(c) => (op_category_name(c), collect_input_types(c), collect_output_types(c)),
                        None => ("Region".to_owned(), Vec::new(), Vec::new()),
                    };
                    proof {
                        assert(spec_unmatched_payload(
                            module.functions@[idx as int],
                            value,
                            op_name@,
                            input_types@,
                            output_types@,
                        ));
                        let (gm, wm): (Graph, WiringView) = choose|gm: Graph, wm: WiringView|
                            spec_ops_built(
                                body.operations@,
                                body.operations@.len() as int,
                                g_fn,
                                fn_node,
                                spec_region_seed(
                                    *body,
                                    in_node,
                                    out_node,
                                    inputs@.len() as int,
                                    outputs@.len() as int,
                                ),
                                calls_pre,
                                gm,
                                wm,
                                calls@,
                            ) && #[trigger] spec_region_resolved(wm, gm, g, left@);
                        crate::alist::lemma_map_of_index(left.input_edges.entry_seq(), 0);
                        assert(left@.inputs.contains_key(value));
                        assert(spec_function_unmatched(
                            module.functions@[idx as int],
                            g_pre,
                            calls_pre,
                            value,
                        )) by {
                            assert(fn_node == g_pre.nodes@.len() as usize);
                            assert(in_node == (g_pre.nodes@.len() + 1) as usize);
                            assert(out_node == (g_pre.nodes@.len() + 2) as usize);
                            assert(spec_boundary_added(
                                g_head,
                                g_fn,
                                g_pre.nodes@.len() as usize,
                                spec_types_to_hugr(inputs@),
                                spec_types_to_hugr(outputs@),
                            )) by {
                                assert(g_fn.nodes@.take(g_head.nodes@.len() as int)
                                    =~= g_head.nodes@);
                                assert(g_fn.nodes@[g_head.nodes@.len() as int].op
                                    matches NodeOp::Input { types } && types@
                                    =~= spec_types_to_hugr(inputs@));
                                assert(g_fn.nodes@[g_head.nodes@.len() as int + 1].op
                                    matches NodeOp::Output { types } && types@
                                    =~= spec_types_to_hugr(outputs@));
                            }
                            assert(spec_ops_built(
                                body.operations@,
                                body.operations@.len() as int,
                                g_fn,
                                g_pre.nodes@.len() as usize,
                                spec_region_seed(
                                    *body,
                                    (g_pre.nodes@.len() + 1) as usize,
                                    (g_pre.nodes@.len() + 2) as usize,
                                    inputs@.len() as int,
                                    outputs@.len() as int,
                                ),
                                calls_pre,
                                gm,
                                wm,
                                calls@,
                            ));
                            assert(spec_region_resolved(wm, gm, g, left@));
                        }
                        assert(spec_funcs_built(
                            module.functions@,
                            idx as int,
                            g_root,
                            Map::<u32, Seq<PortRef>>::empty(),
                            g_pre,
                            calls_pre,
                            function_nodes@,
                        ));
                    }
                    return Err(
                        JeffToHugrError::UnmatchedInput {
                            value,
                            node,
                            op: op_name,
                            input_types,
                            output_types,
                        },
                    );
                }
                let ghost fns_old = function_nodes@;
                function_nodes.push(fn_node);
                proof {
                    assert(graph_extended(g_fn, g, fn_node));
                    assert(spec_boundary_added(
                        g_head,
                        g_fn,
                        fn_node,
                        spec_types_to_hugr(inputs@),
                        spec_types_to_hugr(outputs@),
                    )) by {
                        assert(g_fn.nodes@.take(g_head.nodes@.len() as int) =~= g_head.nodes@);
                        assert(g_fn.nodes@[g_head.nodes@.len() as int].op
                            matches NodeOp::Input { types } && types@ =~= spec_types_to_hugr(
                            inputs@,
                        ));
                        assert(g_fn.nodes@[g_head.nodes@.len() as int + 1].op
                            matches NodeOp::Output { types } && types@ =~= spec_types_to_hugr(
                            outputs@,
                        ));
                    }
                    assert(left.input_edges.entry_seq() =~= Seq::<(u32, Seq<PortRef>)>::empty());
                    assert(left@.inputs =~= Map::<u32, Seq<PortRef>>::empty());
                    let (gm, wm): (Graph, WiringView) = choose|gm: Graph, wm: WiringView|
                        spec_ops_built(
                            body.operations@,
                            body.operations@.len() as int,
                            g_fn,
                            fn_node,
                            spec_region_seed(
                                *body,
                                in_node,
                                out_node,
                                inputs@.len() as int,
                                outputs@.len() as int,
                            ),
                            calls_pre,
                            gm,
                            wm,
                            calls@,
                        ) && #[trigger] spec_region_resolved(wm, gm, g, left@);
                    assert(spec_region_resolved(wm, gm, g, left@));
                    assert(spec_function_built(
                        module.functions@[idx as int],
                        g_pre,
                        calls_pre,
                        g,
                        calls@,
                    )) by {
                        assert(fn_node == g_pre.nodes@.len() as usize);
                        assert(in_node == (g_pre.nodes@.len() + 1) as usize);
                        assert(out_node == (g_pre.nodes@.len() + 2) as usize);
                        assert(spec_boundary_added(
                            g_head,
                            g_fn,
                            g_pre.nodes@.len() as usize,
                            spec_types_to_hugr(inputs@),
                            spec_types_to_hugr(outputs@),
                        ));
                        assert(spec_ops_built(
                            body.operations@,
                            body.operations@.len() as int,
                            g_fn,
                            g_pre.nodes@.len() as usize,
                            spec_region_seed(
                                *body,
                                (g_pre.nodes@.len() + 1) as usize,
                                (g_pre.nodes@.len() + 2) as usize,
                                inputs@.len() as int,
                                outputs@.len() as int,
                            ),
                            calls_pre,
                            gm,
                            wm,
                            calls@,
                        ));
                        assert(spec_region_resolved(wm, gm, g, left@));
                    }
                    lemma_funcs_built_fns_grow(
                        module.functions@,
                        idx as int,
                        g_root,
                        Map::<u32, Seq<PortRef>>::empty(),
                        g_pre,
                        calls_pre,
                        fns_old,
                        function_nodes@,
                    );
                    lemma_funcs_built_step(
                        module.functions@,
                        idx as int,
                        g_root,
                        Map::<u32, Seq<PortRef>>::empty(),
                        g_pre,
                        calls_pre,
                        g,
                        calls@,
                        function_nodes@,
                    );
                    assert forall|j1: int, j2: int|
                        0 <= j1 < j2 < idx + 1 implies function_nodes@[j1]
                        < function_nodes@[j2] by {
                        if j2 == idx {
                            assert(function_nodes@[j1] == fns_old[j1]);
                            assert(fns_old[j1] < g_pre.nodes@.len());
                        }
                    }
                    assert forall|j: int|
                        0 <= j < idx + 1 implies (#[trigger] function_nodes@[j]) < g.nodes@.len()
                        && g.nodes@[function_nodes@[j] as int].parent == Some(0usize)
                        && function_decl_matches(
                        g.nodes@[function_nodes@[j] as int].op,
                        module.functions@[j],
                    ) by {
                        if j < idx {
                            crate::wiring::lemma_prefix_index(
                                g_pre.nodes@,
                                g.nodes@,
                                function_nodes@[j] as int,
                            );
                        } else {
                            crate::wiring::lemma_prefix_index(
                                g_fn.nodes@,
                                g.nodes@,
                                fn_node as int,
                            );
                        }
                    }
                    crate::wiring::lemma_prefix_index(g_pre.nodes@, g.nodes@, 0);
                }
            },
            crate::jeff_ir::Function::Declaration { name, inputs, outputs } => {
                let signature = crate::types::jeff_signature_to_hugr(inputs, outputs);
                let fn_node = g.add_node(0, NodeOp::FuncDecl { name: name.clone(), signature });
                let ghost fns_old = function_nodes@;
                function_nodes.push(fn_node);
                proof {
                    lemma_ports_bounded_mono(
                        calls@,
                        g_pre.nodes@.len() as nat,
                        g.nodes@.len() as nat,
                    );
                    assert forall|j: int|
                        0 <= j < idx + 1 implies (#[trigger] function_nodes@[j]) < g.nodes@.len()
                        && g.nodes@[function_nodes@[j] as int].parent == Some(0usize)
                        && function_decl_matches(
                        g.nodes@[function_nodes@[j] as int].op,
                        module.functions@[j],
                    ) by {
                        if j < idx {
                            crate::wiring::lemma_prefix_index(
                                g_pre.nodes@,
                                g.nodes@,
                                function_nodes@[j] as int,
                            );
                        }
                    }
                    crate::wiring::lemma_prefix_index(g_pre.nodes@, g.nodes@, 0);
                    assert(spec_function_built(
                        module.functions@[idx as int],
                        g_pre,
                        calls_pre,
                        g,
                        calls@,
                    )) by {
                        assert(g.nodes@.take(g_pre.nodes@.len() as int) =~= g_pre.nodes@);
                        assert(function_decl_matches(
                            g.nodes@[function_nodes@[idx as int] as int].op,
                            module.functions@[idx as int],
                        ));
                        assert(g.nodes@.last() == g.nodes@[function_nodes@[idx as int] as int]);
                    }
                    lemma_funcs_built_fns_grow(
                        module.functions@,
                        idx as int,
                        g_root,
                        Map::<u32, Seq<PortRef>>::empty(),
                        g_pre,
                        calls_pre,
                        fns_old,
                        function_nodes@,
                    );
                    lemma_funcs_built_step(
                        module.functions@,
                        idx as int,
                        g_root,
                        Map::<u32, Seq<PortRef>>::empty(),
                        g_pre,
                        calls_pre,
                        g,
                        calls@,
                        function_nodes@,
                    );
                    assert forall|j1: int, j2: int|
                        0 <= j1 < j2 < idx + 1 implies function_nodes@[j1]
                        < function_nodes@[j2] by {
                        if j2 == idx {
                            assert(function_nodes@[j1] == fns_old[j1]);
                            assert(fns_old[j1] < g_pre.nodes@.len());
                        }
                    }
                }
            },
        }
    }
    // connect the pending static call edges, now that the table is complete
    let ghost g_funcs = g;
    let ghost c_fin = calls@;
    let ghost entries_fin = calls.calls.entry_seq();
    proof {
        assert(g.edges@ =~= g_funcs.edges@ + spec_call_edges(function_nodes@, entries_fin, 0));
    }
    let n_calls = calls.calls.len();
    for ci in 0..n_calls
        invariant
            n_calls == calls.calls.entry_seq().len(),
            (forall|i: int|
                0 <= i < module.functions@.len() ==> (#[trigger] module.functions@[i]) is Declaration)
                ==> calls@ =~= Map::<u32, Seq<PortRef>>::empty(),
            g.wf(),
            g.nodes@.len() > 0,
            g.nodes@[0].op is Module,
            g.nodes@[0].parent is None,
            calls.wf(),
            crate::wiring::ports_bounded(calls@, g.nodes@.len() as nat),
            function_nodes@.len() == module.functions@.len(),
            forall|j: int|
                0 <= j < function_nodes@.len() ==> (#[trigger] function_nodes@[j])
                    < g.nodes@.len() && g.nodes@[function_nodes@[j] as int].parent == Some(0usize)
                    && function_decl_matches(
                    g.nodes@[function_nodes@[j] as int].op,
                    module.functions@[j],
                ),
            forall|j1: int, j2: int|
                0 <= j1 < j2 < function_nodes@.len() ==> function_nodes@[j1]
                    < function_nodes@[j2],
            g_root.nodes@ == seq![NodeData { parent: None, op: NodeOp::Module }],
            g_root.edges@ == Seq::<crate::graph::Edge>::empty(),
            g_root.order_edges@ == Seq::<crate::graph::OrderEdge>::empty(),
            spec_funcs_built(
                module.functions@,
                module.functions@.len() as int,
                g_root,
                Map::<u32, Seq<PortRef>>::empty(),
                g_funcs,
                c_fin,
                function_nodes@,
            ),
            c_fin == calls@,
            entries_fin == calls.calls.entry_seq(),
            g.nodes@ == g_funcs.nodes@,
            g.order_edges@ == g_funcs.order_edges@,
            g.edges@ == g_funcs.edges@ + spec_call_edges(function_nodes@, entries_fin, ci as int),
            forall|j: int|
                0 <= j < ci ==> (#[trigger] entries_fin[j]).0 < module.functions@.len(),
    {
        let fid = calls.calls.key_at(ci);
        if fid as usize >= function_nodes.len() {
            proof {
                if forall|i: int|
                    0 <= i < module.functions@.len() ==> (#[trigger] module.functions@[i]) is Declaration {
                    crate::alist::lemma_map_of_index(calls.calls.entry_seq(), ci as int);
                }
                crate::alist::lemma_map_of_index(calls.calls.entry_seq(), ci as int);
                assert(c_fin.contains_key(fid));
                assert(fid as int >= module.functions@.len());
                assert(spec_funcs_built(
                    module.functions@,
                    module.functions@.len() as int,
                    g_root,
                    Map::<u32, Seq<PortRef>>::empty(),
                    g_funcs,
                    c_fin,
                    function_nodes@,
                ));
            }
            return Err(JeffToHugrError::MalformedJeffFile);
        }
        let fn_node = function_nodes[fid as usize];
        let ports = calls.calls.value_at(ci);
        let n_ports = ports.len();
        for pi in 0..n_ports
            invariant
                n_calls == calls.calls.entry_seq().len(),
                ci < n_calls,
                n_ports == calls.calls.entry_seq()[ci as int].1.len(),
                g.wf(),
                g.nodes@.len() > 0,
                g.nodes@[0].op is Module,
                g.nodes@[0].parent is None,
                calls.wf(),
                crate::wiring::ports_bounded(calls@, g.nodes@.len() as nat),
                fn_node < g.nodes@.len(),
                fn_node == function_nodes@[entries_fin[ci as int].0 as int],
                fid == entries_fin[ci as int].0,
                function_nodes@.len() == module.functions@.len(),
                forall|j: int|
                    0 <= j < function_nodes@.len() ==> (#[trigger] function_nodes@[j])
                        < g.nodes@.len() && g.nodes@[function_nodes@[j] as int].parent == Some(
                        0usize,
                    ) && function_decl_matches(
                        g.nodes@[function_nodes@[j] as int].op,
                        module.functions@[j],
                    ),
                entries_fin == calls.calls.entry_seq(),
                g.nodes@ == g_funcs.nodes@,
                g.order_edges@ == g_funcs.order_edges@,
                g.edges@ == g_funcs.edges@ + spec_call_edges(
                    function_nodes@,
                    entries_fin,
                    ci as int,
                ) + spec_call_row(fn_node, entries_fin[ci as int].1).take(pi as int),
        {
            let ports2 = calls.calls.value_at(ci);
            let p = ports2[pi];
            proof {
                crate::alist::lemma_map_of_index(calls.calls.entry_seq(), ci as int);
                assert(calls@[calls.calls.entry_seq()[ci as int].0]
                    == calls.calls.entry_seq()[ci as int].1);
                assert(calls.calls.entry_seq()[ci as int].1[pi as int].node < g.nodes@.len());
            }
            g.connect(fn_node, 0, p.node, p.port);
            proof {
                assert(graph_extended(g, g, 0));
                assert(spec_call_row(fn_node, entries_fin[ci as int].1).take(pi as int + 1)
                    =~= spec_call_row(fn_node, entries_fin[ci as int].1).take(pi as int).push(
                    crate::graph::Edge {
                        src: fn_node,
                        src_port: 0,
                        dst: p.node,
                        dst_port: p.port,
                    },
                ));
                assert(g.edges@ =~= g_funcs.edges@ + spec_call_edges(
                    function_nodes@,
                    entries_fin,
                    ci as int,
                ) + spec_call_row(fn_node, entries_fin[ci as int].1).take(pi as int + 1));
            }
        }
        proof {
            lemma_call_edges_step(function_nodes@, entries_fin, ci as int);
            assert(spec_call_row(fn_node, entries_fin[ci as int].1).take(n_ports as int)
                =~= spec_call_row(fn_node, entries_fin[ci as int].1));
            assert(g.edges@ =~= g_funcs.edges@ + spec_call_edges(
                function_nodes@,
                entries_fin,
                ci as int + 1,
            ));
        }
    }
    proof {
        assert(crate::alist::distinct_keys(entries_fin));
        assert(crate::alist::map_of(entries_fin) == c_fin);
    }
    Ok(g)
}

} // verus!
