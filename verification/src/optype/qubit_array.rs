//! Translation of source qubit-register operations.

use vstd::prelude::*;
use crate::extension::{spec_jeffop_inputs, spec_jeffop_outputs, JeffOp};
use crate::graph::{Graph, NodeId, NodeOp};
use crate::jeff_ir::{Operation, QubitRegisterOp};
use crate::to_hugr::{spec_single_op, JeffToHugrError};
use crate::wiring::BuildContext;

verus! {

/// The extension operation a source qubit-register operation maps to,
/// given the operation's input count (register creation is parameterized
/// by it). Freeing a register known to be zeroed folds into the plain
/// free.
pub open spec fn spec_qureg_ext_op(qop: QubitRegisterOp, n_inputs: int) -> Option<JeffOp> {
    match qop {
        QubitRegisterOp::Alloc => Some(JeffOp::QuregAlloc),
        QubitRegisterOp::Free => Some(JeffOp::QuregFree),
        QubitRegisterOp::FreeZero => Some(JeffOp::QuregFree),
        QubitRegisterOp::ExtractIndex => Some(JeffOp::QuregExtractIndex),
        QubitRegisterOp::InsertIndex => Some(JeffOp::QuregInsertIndex),
        QubitRegisterOp::ExtractSlice => Some(JeffOp::QuregExtractSlice),
        QubitRegisterOp::InsertSlice => Some(JeffOp::QuregInsertSlice),
        QubitRegisterOp::Length => Some(JeffOp::QuregLength),
        QubitRegisterOp::Split => Some(JeffOp::QuregSplit),
        QubitRegisterOp::Join => Some(JeffOp::QuregJoin),
        QubitRegisterOp::Create => Some(JeffOp::QuregCreate { qubits: n_inputs as usize }),
        QubitRegisterOp::Other => None,
    }
}

/// Translate one source qubit-register operation into a node of the
/// extension vocabulary.
pub fn build_qubit_array_op(
    qop: &QubitRegisterOp,
    op: &Operation,
    g: &mut Graph,
    parent: NodeId,
    ctx: &mut BuildContext,
) -> (r: Result<(), JeffToHugrError>)
    requires
        old(ctx).wf(),
        old(g).wf(),
        parent < old(g).nodes@.len(),
    ensures
        (*final(ctx)).wf(),
        (*final(g)).wf(),
        (*final(g)).edges@ == old(g).edges@,
        (*final(g)).order_edges@ == old(g).order_edges@,
        crate::to_hugr::graph_extended(*old(g), *final(g), parent),
        crate::wiring::wiring_bounded(old(ctx)@, old(g).nodes@.len() as nat)
            ==> crate::wiring::wiring_bounded((*final(ctx))@, (*final(g)).nodes@.len() as nat),
        r is Ok <==> spec_qureg_ext_op(*qop, op.inputs@.len() as int) is Some,
        r is Ok ==> spec_single_op(
            old(ctx)@,
            *old(g),
            parent,
            NodeOp::Extension { op: spec_qureg_ext_op(*qop, op.inputs@.len() as int)->Some_0 },
            op.inputs@,
            op.outputs@,
            spec_jeffop_inputs(spec_qureg_ext_op(*qop, op.inputs@.len() as int)->Some_0).len()
                as int,
            spec_jeffop_outputs(spec_qureg_ext_op(*qop, op.inputs@.len() as int)->Some_0).len()
                as int,
            (*final(ctx))@,
            *final(g),
        ),
        r is Err ==> (*final(g)).nodes@ == old(g).nodes@ && *final(ctx) == *old(ctx),
        r matches Err(e) ==> e is UnsupportedOperation,
{
    let ghost w0 = ctx@;
    let ext_op = match qop {
        QubitRegisterOp::Alloc => JeffOp::QuregAlloc,
        QubitRegisterOp::Free => JeffOp::QuregFree,
        QubitRegisterOp::FreeZero => JeffOp::QuregFree,
        QubitRegisterOp::ExtractIndex => JeffOp::QuregExtractIndex,
        QubitRegisterOp::InsertIndex => JeffOp::QuregInsertIndex,
        QubitRegisterOp::ExtractSlice => JeffOp::QuregExtractSlice,
        QubitRegisterOp::InsertSlice => JeffOp::QuregInsertSlice,
        QubitRegisterOp::Length => JeffOp::QuregLength,
        QubitRegisterOp::Split => JeffOp::QuregSplit,
        QubitRegisterOp::Join => JeffOp::QuregJoin,
        QubitRegisterOp::Create => JeffOp::QuregCreate { qubits: op.inputs.len() },
        QubitRegisterOp::Other => {
            proof {
                crate::to_hugr::lemma_extended_refl(*old(g), *g, parent);
            }
            return Err(JeffToHugrError::unsupported_op("QubitRegisterOp".to_owned()));
        },
    };
    let sig = ext_op.signature();
    let n_in = sig.inputs.len();
    let n_out = sig.outputs.len();
    ctx.build_single_op(NodeOp::Extension { op: ext_op }, op, g, parent, n_in, n_out);
    proof {
        let nd = (*g).nodes@.last();
        crate::to_hugr::lemma_extended_push(*old(g), *g, parent, nd);
        if crate::wiring::wiring_bounded(w0, old(g).nodes@.len() as nat) {
            crate::to_hugr::lemma_single_op_bounded(
                w0,
                *old(g),
                parent,
                NodeOp::Extension { op: spec_qureg_ext_op(*qop, op.inputs@.len() as int)->Some_0 },
                op.inputs@,
                op.outputs@,
                spec_jeffop_inputs(
                    spec_qureg_ext_op(*qop, op.inputs@.len() as int)->Some_0,
                ).len() as int,
                spec_jeffop_outputs(
                    spec_qureg_ext_op(*qop, op.inputs@.len() as int)->Some_0,
                ).len() as int,
                ctx@,
                *g,
            );
        }
    }
    Ok(())
}

} // verus!
