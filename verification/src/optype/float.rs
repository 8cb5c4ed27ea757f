//! Translation of source floating-point operations.

use vstd::prelude::*;
use crate::graph::{FloatNodeOp, Graph, NodeId, NodeOp};
use crate::jeff_ir::{FloatOp, Operation};
use crate::to_hugr::{spec_const_op, spec_single_op, JeffToHugrError};
use crate::wiring::BuildContext;

verus! {

/// The target operation that a source float operation maps to as a single
/// node, if any. Constants are handled separately; the rest of the source
/// float vocabulary is unsupported.
///
/// The unary natural exponential is deliberately mapped to the binary
/// power node, taking its exponent from the single operand: the target
/// vocabulary has no exponential of its own. The other transcendentals
/// are rejected.
pub open spec fn spec_float_single(op: FloatOp) -> Option<FloatNodeOp> {
    match op {
        FloatOp::Add => Some(FloatNodeOp::Fadd),
        FloatOp::Sub => Some(FloatNodeOp::Fsub),
        FloatOp::Mul => Some(FloatNodeOp::Fmul),
        FloatOp::Pow => Some(FloatNodeOp::Fpow),
        FloatOp::Eq => Some(FloatNodeOp::Feq),
        FloatOp::Lt => Some(FloatNodeOp::Flt),
        FloatOp::Lte => Some(FloatNodeOp::Fle),
        FloatOp::Abs => Some(FloatNodeOp::Fabs),
        FloatOp::Ceil => Some(FloatNodeOp::Fceil),
        FloatOp::Floor => Some(FloatNodeOp::Ffloor),
        FloatOp::Exp => Some(FloatNodeOp::Fpow),
        FloatOp::Max => Some(FloatNodeOp::Fmax),
        FloatOp::Min => Some(FloatNodeOp::Fmin),
        _ => None,
    }
}

/// Whether the source float operation is a constant, and the 64-bit
/// pattern it loads.
pub open spec fn spec_float_const(op: FloatOp) -> Option<u64> {
    match op {
        FloatOp::Const32 { bits } => Some(bits),
        FloatOp::Const64 { bits } => Some(bits),
        _ => None,
    }
}

/// Translate one source float operation.
///
/// Constants become constant-loading nodes; the arithmetic and comparison
/// operations with a direct target equivalent become one node each; the
/// transcendental family has no target equivalent and is rejected.
pub fn build_float_op(
    float_op: &FloatOp,
    op: &Operation,
    g: &mut Graph,
    parent: NodeId,
    ctx: &mut BuildContext,
) -> (r: Result<(), JeffToHugrError>)
    requires
        old(ctx).wf(),
        old(g).wf(),
        parent < old(g).nodes@.len(),
    ensures
        (*final(ctx)).wf(),
        (*final(g)).wf(),
        (*final(g)).edges@ == old(g).edges@,
        (*final(g)).order_edges@ == old(g).order_edges@,
        crate::to_hugr::graph_extended(*old(g), *final(g), parent),
        crate::wiring::wiring_bounded(old(ctx)@, old(g).nodes@.len() as nat)
            ==> crate::wiring::wiring_bounded((*final(ctx))@, (*final(g)).nodes@.len() as nat),
        r is Ok <==> (spec_float_single(*float_op) is Some || (spec_float_const(
            *float_op,
        ) is Some && op.inputs@.len() == 0 && op.outputs@.len() == 1)),
        spec_float_single(*float_op) matches Some(f) ==> spec_single_op(
            old(ctx)@,
            *old(g),
            parent,
            NodeOp::FloatOp { op: f },
            op.inputs@,
            op.outputs@,
            f.spec_num_inputs() as int,
            1,
            (*final(ctx))@,
            *final(g),
        ),
        r is Ok ==> (spec_float_const(*float_op) matches Some(bits) ==> spec_const_op(
            old(ctx)@,
            *old(g),
            parent,
            crate::graph::ConstValue::F64 { bits },
            op.outputs@,
            (*final(ctx))@,
            *final(g),
        )),
        r is Err ==> (*final(g)).nodes@ == old(g).nodes@ && *final(ctx) == *old(ctx),
        r matches Err(e) ==> e is UnsupportedOperation,
{
    let ghost w0 = ctx@;
    let r = match float_op {
        FloatOp::Const32 { bits } => ctx.build_constant_value(
            crate::graph::ConstValue::F64 { bits: *bits },
            op,
            g,
            parent,
            "FloatConst32".to_owned(),
        ),
        FloatOp::Const64 { bits } => ctx.build_constant_value(
            crate::graph::ConstValue::F64 { bits: *bits },
            op,
            g,
            parent,
            "FloatConst64".to_owned(),
        ),
        FloatOp::Add => build_float_single(FloatNodeOp::Fadd, op, g, parent, ctx),
        FloatOp::Sub => build_float_single(FloatNodeOp::Fsub, op, g, parent, ctx),
        FloatOp::Mul => build_float_single(FloatNodeOp::Fmul, op, g, parent, ctx),
        FloatOp::Pow => build_float_single(FloatNodeOp::Fpow, op, g, parent, ctx),
        FloatOp::Eq => build_float_single(FloatNodeOp::Feq, op, g, parent, ctx),
        FloatOp::Lt => build_float_single(FloatNodeOp::Flt, op, g, parent, ctx),
        FloatOp::Lte => build_float_single(FloatNodeOp::Fle, op, g, parent, ctx),
        FloatOp::Abs => build_float_single(FloatNodeOp::Fabs, op, g, parent, ctx),
        FloatOp::Ceil => build_float_single(FloatNodeOp::Fceil, op, g, parent, ctx),
        FloatOp::Floor => build_float_single(FloatNodeOp::Ffloor, op, g, parent, ctx),
        FloatOp::Exp => build_float_single(FloatNodeOp::Fpow, op, g, parent, ctx),
        FloatOp::Max => build_float_single(FloatNodeOp::Fmax, op, g, parent, ctx),
        FloatOp::Min => build_float_single(FloatNodeOp::Fmin, op, g, parent, ctx),
        _ => Err(JeffToHugrError::unsupported_op("FloatOp".to_owned())),
    };
    proof {
        if (*g).nodes@.len() == old(g).nodes@.len() {
            crate::to_hugr::lemma_extended_refl(*old(g), *g, parent);
        } else {
            let nd = (*g).nodes@.last();
            crate::to_hugr::lemma_extended_push(*old(g), *g, parent, nd);
            if crate::wiring::wiring_bounded(w0, old(g).nodes@.len() as nat) {
                match spec_float_single(*float_op) {
                    Some(f) => {
                        crate::to_hugr::lemma_single_op_bounded(
                            w0,
                            *old(g),
                            parent,
                            NodeOp::FloatOp { op: f },
                            op.inputs@,
                            op.outputs@,
                            f.spec_num_inputs() as int,
                            1,
                            ctx@,
                            *g,
                        );
                    },
                    None => {
                        crate::to_hugr::lemma_const_op_bounded(
                            w0,
                            *old(g),
                            parent,
                            crate::graph::ConstValue::F64 {
                                bits: spec_float_const(*float_op)->Some_0,
                            },
                            op.outputs@,
                            ctx@,
                            *g,
                        );
                    },
                }
            }
        }
    }
    r
}

/// Emit one node for a float operation with a direct target equivalent.
fn build_float_single(
    f: FloatNodeOp,
    op: &Operation,
    g: &mut Graph,
    parent: NodeId,
    ctx: &mut BuildContext,
) -> (r: Result<(), JeffToHugrError>)
    requires
        old(ctx).wf(),
        old(g).wf(),
        parent < old(g).nodes@.len(),
    ensures
        (*final(ctx)).wf(),
        (*final(g)).wf(),
        r is Ok,
        spec_single_op(
            old(ctx)@,
            *old(g),
            parent,
            NodeOp::FloatOp { op: f },
            op.inputs@,
            op.outputs@,
            f.spec_num_inputs() as int,
            1,
            (*final(ctx))@,
            *final(g),
        ),
{
    let n_in = f.num_inputs();
    ctx.build_single_op(NodeOp::FloatOp { op: f }, op, g, parent, n_in, 1);
    Ok(())
}

} // verus!
