//! Translation of source integer operations.

use vstd::prelude::*;
use crate::graph::{ConstValue, Graph, NodeId};
use crate::jeff_ir::{IntOp, Operation};
use crate::to_hugr::{spec_const_op, JeffToHugrError};
use crate::wiring::BuildContext;

verus! {

/// The constant a source integer operation loads, if it is one: a boolean
/// for the 1-bit form, otherwise a value tagged with the log of its
/// width.
pub open spec fn spec_int_const(op: IntOp) -> Option<ConstValue> {
    match op {
        IntOp::Const1(b) => Some(ConstValue::Bool(b)),
        IntOp::Const8(v) => Some(ConstValue::Int { log_width: 3, value: v as u64 }),
        IntOp::Const16(v) => Some(ConstValue::Int { log_width: 4, value: v as u64 }),
        IntOp::Const32(v) => Some(ConstValue::Int { log_width: 5, value: v as u64 }),
        IntOp::Const64(v) => Some(ConstValue::Int { log_width: 6, value: v }),
        IntOp::Other => None,
    }
}

/// Translate one source integer operation.
///
/// Only the constants are supported: integer arithmetic in the source
/// does not carry the width its target equivalent would need, so the
/// rest of the vocabulary is rejected.
pub fn build_int_op(
    int_op: &IntOp,
    op: &Operation,
    g: &mut Graph,
    parent: NodeId,
    ctx: &mut BuildContext,
) -> (r: Result<(), JeffToHugrError>)
    requires
        old(ctx).wf(),
        old(g).wf(),
        parent < old(g).nodes@.len(),
    ensures
        (*final(ctx)).wf(),
        (*final(g)).wf(),
        (*final(g)).edges@ == old(g).edges@,
        (*final(g)).order_edges@ == old(g).order_edges@,
        crate::to_hugr::graph_extended(*old(g), *final(g), parent),
        crate::wiring::wiring_bounded(old(ctx)@, old(g).nodes@.len() as nat)
            ==> crate::wiring::wiring_bounded((*final(ctx))@, (*final(g)).nodes@.len() as nat),
        r is Ok <==> (spec_int_const(*int_op) is Some && op.inputs@.len() == 0
            && op.outputs@.len() == 1),
        r is Ok ==> spec_const_op(
            old(ctx)@,
            *old(g),
            parent,
            spec_int_const(*int_op)->Some_0,
            op.outputs@,
            (*final(ctx))@,
            *final(g),
        ),
        r is Err ==> (*final(g)).nodes@ == old(g).nodes@ && *final(ctx) == *old(ctx),
        r matches Err(e) ==> e is UnsupportedOperation,
{
    let ghost w0 = ctx@;
    let r = match int_op {
        IntOp::Const1(b) => ctx.build_constant_value(
            ConstValue::Bool(*b),
            op,
            g,
            parent,
            "IntConst1".to_owned(),
        ),
        IntOp::Const8(v) => ctx.build_constant_value(
            ConstValue::Int { log_width: 3, value: *v as u64 },
            op,
            g,
            parent,
            "IntConst8".to_owned(),
        ),
        IntOp::Const16(v) => ctx.build_constant_value(
            ConstValue::Int { log_width: 4, value: *v as u64 },
            op,
            g,
            parent,
            "IntConst16".to_owned(),
        ),
        IntOp::Const32(v) => ctx.build_constant_value(
            ConstValue::Int { log_width: 5, value: *v as u64 },
            op,
            g,
            parent,
            "IntConst32".to_owned(),
        ),
        IntOp::Const64(v) => ctx.build_constant_value(
            ConstValue::Int { log_width: 6, value: *v },
            op,
            g,
            parent,
            "IntConst64".to_owned(),
        ),
        IntOp::Other => Err(JeffToHugrError::unsupported_op("IntOp".to_owned())),
    };
    proof {
        if r is Ok {
            let nd = (*g).nodes@.last();
            crate::to_hugr::lemma_extended_push(*old(g), *g, parent, nd);
            if crate::wiring::wiring_bounded(w0, old(g).nodes@.len() as nat) {
                crate::to_hugr::lemma_const_op_bounded(
                    w0,
                    *old(g),
                    parent,
                    spec_int_const(*int_op)->Some_0,
                    op.outputs@,
                    ctx@,
                    *g,
                );
            }
        } else {
            crate::to_hugr::lemma_extended_refl(*old(g), *g, parent);
        }
    }
    r
}

} // verus!
