//! Translation between source and target operation vocabularies: one
//! module per source operation category, and the closed dispatch over
//! them.

use vstd::prelude::*;
use crate::extension::{spec_jeffop_inputs, spec_jeffop_outputs, ConstIntReg};
use crate::graph::{graph_extended, ConstValue, Graph, NodeData, NodeId, NodeOp};
use crate::jeff_ir::{ControlFlowOp, JeffType, OpType, Operation, QubitOp};
use crate::to_hugr::{
    lemma_extended_refl, lemma_ports_bounded_mono, spec_const_op, spec_single_op, JeffToHugrError,
};
use crate::types::spec_jeff_to_hugr;
use crate::wiring::{
    ports_bounded, push_port, spec_register_in_seq, spec_register_out_seq, wiring_bounded,
    BuildContext, CallRegistry, PortRef, WiringView,
};

pub mod control_flow;
pub mod float;
pub mod function;
pub mod integer;
pub mod int_array;
pub mod qubit;
pub mod qubit_array;

verus! {

/// The outcome of translating one operation successfully, per category:
/// the node(s) it appends, the port registrations it makes, and the call
/// it records. For a structured control-flow operation, the head node of
/// the spliced sub-graph is pinned; its interior is constrained only as
/// a well-formed extension of the graph under the head.
pub open spec fn spec_op_ok(
    op: Operation,
    g0: Graph,
    parent: NodeId,
    w0: WiringView,
    c0: Map<u32, Seq<PortRef>>,
    g1: Graph,
    w1: WiringView,
    c1: Map<u32, Seq<PortRef>>,
) -> bool {
    match op.optype {
        OpType::FloatOp(x) => c1 == c0 && (match float::spec_float_single(x) {
            Some(f) => spec_single_op(
                w0,
                g0,
                parent,
                NodeOp::FloatOp { op: f },
                op.inputs@,
                op.outputs@,
                f.spec_num_inputs() as int,
                1,
                w1,
                g1,
            ),
            None => (match float::spec_float_const(x) {
                Some(bits) => op.inputs@.len() == 0 && op.outputs@.len() == 1 && spec_const_op(
                    w0,
                    g0,
                    parent,
                    ConstValue::F64 { bits },
                    op.outputs@,
                    w1,
                    g1,
                ),
                None => false,
            }),
        }),
        OpType::IntOp(x) => c1 == c0 && (match integer::spec_int_const(x) {
            Some(v) => op.inputs@.len() == 0 && op.outputs@.len() == 1 && spec_const_op(
                w0,
                g0,
                parent,
                v,
                op.outputs@,
                w1,
                g1,
            ),
            None => false,
        }),
        OpType::IntArrayOp(x) => c1 == c0 && (match int_array::spec_intarray_ext_op(x, op) {
            Some(ext) => spec_single_op(
                w0,
                g0,
                parent,
                NodeOp::Extension { op: ext },
                op.inputs@,
                op.outputs@,
                spec_jeffop_inputs(ext).len() as int,
                spec_jeffop_outputs(ext).len() as int,
                w1,
                g1,
            ),
            None => (match int_array::spec_intarray_const(x) {
                Some((vals, bits)) => op.inputs@.len() == 0 && op.outputs@.len() == 1 && (exists|
                    c: ConstIntReg,
                |
                    c.spec_values() == vals && c.spec_bits() == bits && spec_const_op(
                        w0,
                        g0,
                        parent,
                        ConstValue::IntReg(c),
                        op.outputs@,
                        w1,
                        g1,
                    )),
                None => false,
            }),
        }),
        OpType::QubitOp(x) => c1 == c0 && (match x {
            QubitOp::Gate(gate) => qubit::spec_gate_built(gate, op, w0, g0, parent, w1, g1, true),
            _ => (match qubit::spec_qubit_single(x) {
                Some(t) => spec_single_op(
                    w0,
                    g0,
                    parent,
                    NodeOp::TketOp { op: t },
                    op.inputs@,
                    op.outputs@,
                    t.spec_num_inputs() as int,
                    t.spec_num_outputs() as int,
                    w1,
                    g1,
                ),
                None => false,
            }),
        }),
        OpType::QubitRegisterOp(x) => c1 == c0 && (match qubit_array::spec_qureg_ext_op(
            x,
            op.inputs@.len() as int,
        ) {
            Some(ext) => spec_single_op(
                w0,
                g0,
                parent,
                NodeOp::Extension { op: ext },
                op.inputs@,
                op.outputs@,
                spec_jeffop_inputs(ext).len() as int,
                spec_jeffop_outputs(ext).len() as int,
                w1,
                g1,
            ),
            None => false,
        }),
        OpType::FuncOp(x) => {
            &&& g1.nodes@.len() == g0.nodes@.len() + 1
            &&& g1.nodes@.take(g0.nodes@.len() as int) == g0.nodes@
            &&& g1.edges@ == g0.edges@
            &&& g1.order_edges@ == g0.order_edges@
            &&& (g1.nodes@.last() matches NodeData { parent: p, op: NodeOp::Call { signature } }
                && p == Some(parent) && signature.inputs@ == op.input_types().map_values(
                |t: JeffType| spec_jeff_to_hugr(t),
            ) && signature.outputs@ == op.output_types().map_values(
                |t: JeffType| spec_jeff_to_hugr(t),
            ))
            &&& w1 == spec_register_out_seq(
                spec_register_in_seq(
                    w0,
                    op.inputs@,
                    g0.nodes@.len() as usize,
                    op.inputs@.len() as int,
                ),
                op.outputs@,
                g0.nodes@.len() as usize,
                op.outputs@.len() as int,
            )
            &&& c1 == push_port(
                c0,
                x.func_idx,
                PortRef { node: g0.nodes@.len() as usize, port: op.inputs@.len() as usize },
            )
        },
        OpType::ControlFlowOp(cf) => spec_cf_ok(cf, op, g0, parent, g1)
            && control_flow::spec_head_ports_registered(w0, w1, op, g0.nodes@.len() as usize),
        OpType::Unknown => false,
    }
}

/// What a successful control-flow lowering pins down: the form's shape
/// checks passed, and the head node of the spliced sub-graph - the
/// structured conditional or the repeat node - stands where the
/// operation was translated, under the right parent, carrying the right
/// rows.
pub open spec fn spec_cf_ok(
    cf: ControlFlowOp,
    op: Operation,
    g0: Graph,
    parent: NodeId,
    g1: Graph,
) -> bool {
    match cf {
        ControlFlowOp::Switch(_) => control_flow::spec_switch_built(op, g0, g1, parent)
            && op.inputs@.len() > 0 && op.inputs@[0].ty == (JeffType::Int { bits: 1 }),
        ControlFlowOp::DoWhile { .. } => !(op.input_types() != op.output_types()
            && op.inputs@.len() <= usize::MAX - 4 && op.outputs@.len() <= usize::MAX - 4)
            && g1.nodes@.len() > g0.nodes@.len() && (g1.nodes@[g0.nodes@.len() as int].op
            matches NodeOp::TailLoop { just_inputs, just_outputs, rest } && just_inputs@.len() == 0
            && just_outputs@.len() == 0 && rest@ == control_flow::spec_port_types(op.inputs@))
            && g1.nodes@[g0.nodes@.len() as int].parent == Some(parent),
        ControlFlowOp::While { .. } => !(op.input_types() != op.output_types()
            && op.inputs@.len() <= usize::MAX - 4 && op.outputs@.len() <= usize::MAX - 4)
            && g1.nodes@.len() > g0.nodes@.len() && (g1.nodes@[g0.nodes@.len() as int].op
            matches NodeOp::TailLoop { just_inputs, just_outputs, rest } && just_inputs@.len() == 0
            && just_outputs@.len() == 0 && rest@ == control_flow::spec_port_types(op.inputs@))
            && g1.nodes@[g0.nodes@.len() as int].parent == Some(parent),
        ControlFlowOp::For { .. } => !((op.inputs@.len() == 0 || !(op.inputs@[0].ty is Int))
            && op.inputs@.len() <= usize::MAX - 4 && op.outputs@.len() <= usize::MAX - 4)
            && g1.nodes@.len() > g0.nodes@.len() && (g1.nodes@[g0.nodes@.len() as int].op
            matches NodeOp::TailLoop { just_inputs, just_outputs, rest } && just_inputs@.len() == 3
            && just_outputs@.len() == 0 && rest@ == control_flow::spec_port_types(op.outputs@))
            && g1.nodes@[g0.nodes@.len() as int].parent == Some(parent),
    }
}

/// What a failed translation of one operation pins down, per category:
/// for every single-node category, the state is untouched, the error is
/// the unsupported-operation report, and the category's success
/// condition really fails. A control-flow failure propagates errors out
/// of nested region builds, so only the category is constrained there.
pub open spec fn spec_op_err(
    op: Operation,
    g0: Graph,
    parent: NodeId,
    w0: WiringView,
    c0: Map<u32, Seq<PortRef>>,
    g1: Graph,
    w1: WiringView,
    c1: Map<u32, Seq<PortRef>>,
    e: JeffToHugrError,
) -> bool {
    match op.optype {
        OpType::FloatOp(x) => g1.nodes@ == g0.nodes@ && g1.edges@ == g0.edges@ && g1.order_edges@
            == g0.order_edges@ && w1 == w0 && c1 == c0 && e is UnsupportedOperation && !(
        float::spec_float_single(x) is Some || (float::spec_float_const(x) is Some
            && op.inputs@.len() == 0 && op.outputs@.len() == 1)),
        OpType::IntOp(x) => g1.nodes@ == g0.nodes@ && g1.edges@ == g0.edges@ && g1.order_edges@
            == g0.order_edges@ && w1 == w0 && c1 == c0 && e is UnsupportedOperation && !(
        integer::spec_int_const(x) is Some && op.inputs@.len() == 0 && op.outputs@.len() == 1),
        OpType::IntArrayOp(x) => g1.nodes@ == g0.nodes@ && g1.edges@ == g0.edges@
            && g1.order_edges@ == g0.order_edges@ && w1 == w0 && c1 == c0
            && e is UnsupportedOperation && !(int_array::spec_intarray_ext_op(x, op) is Some || (
        int_array::spec_intarray_const(x) is Some && op.inputs@.len() == 0 && op.outputs@.len()
            == 1)),
        OpType::QubitOp(x) => g1.nodes@ == g0.nodes@ && g1.edges@ == g0.edges@ && g1.order_edges@
            == g0.order_edges@ && c1 == c0 && e is UnsupportedOperation && qubit::spec_qubit_single(
            x,
        ) is None && (match x {
            QubitOp::Gate(gate) => qubit::spec_gate_built(gate, op, w0, g0, parent, w1, g1, false),
            _ => true,
        }),
        OpType::QubitRegisterOp(x) => g1.nodes@ == g0.nodes@ && g1.edges@ == g0.edges@
            && g1.order_edges@ == g0.order_edges@ && w1 == w0 && c1 == c0
            && e is UnsupportedOperation && qubit_array::spec_qureg_ext_op(
            x,
            op.inputs@.len() as int,
        ) is None,
        OpType::FuncOp(_) => false,
        OpType::ControlFlowOp(_) => true,
        OpType::Unknown => g1.nodes@ == g0.nodes@ && g1.edges@ == g0.edges@ && g1.order_edges@
            == g0.order_edges@ && w1 == w0 && c1 == c0 && e is UnsupportedOperation,
    }
}

/// Translate one source operation: the closed dispatch over the
/// operation categories.
///
/// Each case emits a single target node, loads a constant, merges its
/// values to vanish, or builds a structured sub-graph; an operation
/// outside the closed vocabulary is rejected. Success and failure each
/// restate the per-category outcome, so no caller loses what the
/// category guarantees.
pub fn build_hugr_op(
    op: &Operation,
    g: &mut Graph,
    parent: NodeId,
    ctx: &mut BuildContext,
    calls: &mut CallRegistry,
) -> (r: Result<(), JeffToHugrError>)
    requires
        old(ctx).wf(),
        old(calls).wf(),
        old(g).wf(),
        parent < old(g).nodes@.len(),
        wiring_bounded(old(ctx)@, old(g).nodes@.len() as nat),
        ports_bounded(old(calls)@, old(g).nodes@.len() as nat),
    ensures
        (*final(ctx)).wf(),
        (*final(calls)).wf(),
        (*final(g)).wf(),
        graph_extended(*old(g), *final(g), parent),
        wiring_bounded((*final(ctx))@, (*final(g)).nodes@.len() as nat),
        ports_bounded((*final(calls))@, (*final(g)).nodes@.len() as nat),
        r is Ok ==> spec_op_ok(
            *op,
            *old(g),
            parent,
            old(ctx)@,
            old(calls)@,
            *final(g),
            (*final(ctx))@,
            (*final(calls))@,
        ),
        r matches Err(e) ==> spec_op_err(
            *op,
            *old(g),
            parent,
            old(ctx)@,
            old(calls)@,
            *final(g),
            (*final(ctx))@,
            (*final(calls))@,
            e,
        ),
    decreases *op, 4int,
{
    match &op.optype {
        OpType::FloatOp(x) => {
            let r = float::build_float_op(x, op, g, parent, ctx);
            proof {
                lemma_ports_bounded_mono(
                    (*calls)@,
                    old(g).nodes@.len() as nat,
                    (*g).nodes@.len() as nat,
                );
            }
            r
        },
        OpType::FuncOp(x) => function::build_func_op(x, op, g, parent, ctx, calls),
        OpType::IntOp(x) => {
            let r = integer::build_int_op(x, op, g, parent, ctx);
            proof {
                lemma_ports_bounded_mono(
                    (*calls)@,
                    old(g).nodes@.len() as nat,
                    (*g).nodes@.len() as nat,
                );
            }
            r
        },
        OpType::IntArrayOp(x) => {
            let r = int_array::build_int_array_op(x, op, g, parent, ctx);
            proof {
                lemma_ports_bounded_mono(
                    (*calls)@,
                    old(g).nodes@.len() as nat,
                    (*g).nodes@.len() as nat,
                );
            }
            r
        },
        OpType::QubitOp(x) => {
            let r = qubit::build_qubit_op(x, op, g, parent, ctx);
            proof {
                lemma_ports_bounded_mono(
                    (*calls)@,
                    old(g).nodes@.len() as nat,
                    (*g).nodes@.len() as nat,
                );
            }
            r
        },
        OpType::QubitRegisterOp(x) => {
            let r = qubit_array::build_qubit_array_op(x, op, g, parent, ctx);
            proof {
                lemma_ports_bounded_mono(
                    (*calls)@,
                    old(g).nodes@.len() as nat,
                    (*g).nodes@.len() as nat,
                );
            }
            r
        },
        OpType::ControlFlowOp(cfop) => {
            proof {
                assert(decreases_to!(*op => op.optype));
                assert(decreases_to!(op.optype => *cfop));
            }
            control_flow::build_control_flow_op(cfop, op, g, parent, ctx, calls)
        },
        OpType::Unknown => {
            proof {
                lemma_extended_refl(*old(g), *g, parent);
            }
            Err(JeffToHugrError::unsupported_op("Operation".to_owned()))
        },
    }
}

} // verus!
