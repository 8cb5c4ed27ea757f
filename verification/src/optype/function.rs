//! Translation of source static function calls.

use vstd::prelude::*;
use crate::graph::{Graph, NodeData, NodeId, NodeOp};
use crate::jeff_ir::{FuncOp, JeffType, Operation};
use crate::to_hugr::{collect_input_types, collect_output_types, JeffToHugrError};
use crate::types::{jeff_signature_to_hugr, spec_jeff_to_hugr, Signature};
use crate::wiring::{
    push_port, spec_register_in_seq, spec_register_out_seq, BuildContext, CallRegistry, PortRef,
};

verus! {

/// Translate one source static call.
///
/// A call node is emitted with the translated signature; its dataflow
/// ports are registered against the operation's values, and its static
/// function port - the port after the dataflow inputs - is recorded in
/// the module's call registry, to be wired once the whole function table
/// exists (the callee may come later in the table).
pub fn build_func_op(
    func_op: &FuncOp,
    op: &Operation,
    g: &mut Graph,
    parent: NodeId,
    ctx: &mut BuildContext,
    calls: &mut CallRegistry,
) -> (r: Result<(), JeffToHugrError>)
    requires
        old(ctx).wf(),
        old(calls).wf(),
        old(g).wf(),
        parent < old(g).nodes@.len(),
    ensures
        (*final(ctx)).wf(),
        (*final(calls)).wf(),
        (*final(g)).wf(),
        (*final(g)).edges@ == old(g).edges@,
        (*final(g)).order_edges@ == old(g).order_edges@,
        crate::to_hugr::graph_extended(*old(g), *final(g), parent),
        crate::wiring::wiring_bounded(old(ctx)@, old(g).nodes@.len() as nat)
            ==> crate::wiring::wiring_bounded((*final(ctx))@, (*final(g)).nodes@.len() as nat),
        crate::wiring::ports_bounded(old(calls)@, old(g).nodes@.len() as nat)
            ==> crate::wiring::ports_bounded((*final(calls))@, (*final(g)).nodes@.len() as nat),
        r is Ok,
        (*final(g)).nodes@.len() == old(g).nodes@.len() + 1,
        (*final(g)).nodes@.take(old(g).nodes@.len() as int) == old(g).nodes@,
        ((*final(g)).nodes@.last() matches NodeData {
            parent: p,
            op: NodeOp::Call { signature },
        } && p == Some(parent) && signature.inputs@ == op.input_types().map_values(
            |t: JeffType| spec_jeff_to_hugr(t),
        ) && signature.outputs@ == op.output_types().map_values(
            |t: JeffType| spec_jeff_to_hugr(t),
        )),
        (*final(ctx))@ == spec_register_out_seq(
            spec_register_in_seq(
                old(ctx)@,
                op.inputs@,
                old(g).nodes@.len() as usize,
                op.inputs@.len() as int,
            ),
            op.outputs@,
            old(g).nodes@.len() as usize,
            op.outputs@.len() as int,
        ),
        (*final(calls))@ == push_port(
            old(calls)@,
            func_op.func_idx,
            PortRef { node: old(g).nodes@.len() as usize, port: op.inputs@.len() as usize },
        ),
{
    let fn_inputs = collect_input_types(op);
    let fn_outputs = collect_output_types(op);
    let call_signature: Signature = jeff_signature_to_hugr(&fn_inputs, &fn_outputs);
    proof {
        assert(call_signature.inputs@.len() == op.inputs@.len());
        assert(call_signature.outputs@.len() == op.outputs@.len());
    }
    let node = g.add_node(parent, NodeOp::Call { signature: call_signature });
    ctx.register_inputs(&op.inputs, op.inputs.len(), node);
    ctx.register_outputs(&op.outputs, op.outputs.len(), node);
    calls.register_function_call(func_op.func_idx, node, op.inputs.len());
    proof {
        assert((*g).nodes@.take(old(g).nodes@.len() as int) =~= old(g).nodes@);
        let nd = (*g).nodes@.last();
        crate::to_hugr::lemma_extended_push(*old(g), *g, parent, nd);
        let ghost w0 = old(ctx)@;
        if crate::wiring::wiring_bounded(w0, old(g).nodes@.len() as nat) {
            let n = (*g).nodes@.len() as nat;
            crate::to_hugr::lemma_ports_bounded_mono(w0.inputs, old(g).nodes@.len() as nat, n);
            crate::to_hugr::lemma_ports_bounded_mono(w0.outputs, old(g).nodes@.len() as nat, n);
            crate::wiring::lemma_register_in_seq_facts(
                w0,
                op.inputs@,
                node,
                op.inputs@.len() as int,
                n,
            );
            let w_mid = spec_register_in_seq(w0, op.inputs@, node, op.inputs@.len() as int);
            crate::wiring::lemma_register_out_seq_facts(
                w_mid,
                op.outputs@,
                node,
                op.outputs@.len() as int,
                n,
            );
        }
        if crate::wiring::ports_bounded(old(calls)@, old(g).nodes@.len() as nat) {
            let n = (*g).nodes@.len() as nat;
            crate::to_hugr::lemma_ports_bounded_mono(old(calls)@, old(g).nodes@.len() as nat, n);
            crate::wiring::lemma_push_port_bounded(
                old(calls)@,
                func_op.func_idx,
                PortRef { node, port: op.inputs@.len() as usize },
                n,
            );
        }
    }
    Ok(())
}

} // verus!
