//! Translation of source integer-array operations.

use vstd::prelude::*;
use crate::extension::{spec_jeffop_inputs, spec_jeffop_outputs, ConstIntReg, JeffOp};
use crate::graph::{ConstValue, Graph, NodeId, NodeOp};
use crate::jeff_ir::{IntArrayOp, JeffType, Operation};
use crate::to_hugr::{spec_const_op, spec_single_op, JeffToHugrError};
use crate::wiring::BuildContext;

verus! {

/// The element width named by the operation's first input, when that
/// input is an integer or an integer array.
pub open spec fn spec_input_bits(op: Operation) -> Option<u8> {
    if op.inputs@.len() == 0 {
        None
    } else {
        match op.inputs@[0].ty {
            JeffType::Int { bits } => Some(bits),
            JeffType::IntArray { bits } => Some(bits),
            _ => None,
        }
    }
}

/// The extension operation a source integer-array operation maps to as a
/// single node, given the operation's inputs. Constant arrays are handled
/// separately.
pub open spec fn spec_intarray_ext_op(iop: IntArrayOp, op: Operation) -> Option<JeffOp> {
    match iop {
        IntArrayOp::Create => match spec_input_bits(op) {
            Some(bits) => Some(JeffOp::IntArrayCreate { bits, inputs: op.inputs@.len() as usize }),
            None => None,
        },
        IntArrayOp::GetIndex => match spec_input_bits(op) {
            Some(bits) => Some(JeffOp::IntArrayGet { bits }),
            None => None,
        },
        IntArrayOp::SetIndex => match spec_input_bits(op) {
            Some(bits) => Some(JeffOp::IntArraySet { bits }),
            None => None,
        },
        IntArrayOp::Zero { bits } => Some(JeffOp::IntArrayZero { bits }),
        _ => None,
    }
}

/// The element values and width of a constant-array operation, widened to
/// raw 64-bit storage.
pub open spec fn spec_intarray_const(iop: IntArrayOp) -> Option<(Seq<u64>, u8)> {
    match iop {
        IntArrayOp::ConstArray8 { values } => Some(
            (values@.map_values(|v: u8| v as u64), 8u8),
        ),
        IntArrayOp::ConstArray16 { values } => Some(
            (values@.map_values(|v: u16| v as u64), 16u8),
        ),
        IntArrayOp::ConstArray32 { values } => Some(
            (values@.map_values(|v: u32| v as u64), 32u8),
        ),
        IntArrayOp::ConstArray64 { values } => Some((values@, 64u8)),
        _ => None,
    }
}

/// Widen 8-bit values to raw 64-bit storage.
fn widen_u8(values: &Vec<u8>) -> (r: Vec<u64>)
    ensures
        r@ == values@.map_values(|v: u8| v as u64),
{
    let ghost goal = values@.map_values(|v: u8| v as u64);
    let mut out: Vec<u64> = Vec::new();
    for i in 0..values.len()
        invariant
            goal == values@.map_values(|v: u8| v as u64),
            out@ =~= goal.take(i as int),
    {
        out.push(values[i] as u64);
        proof {
            assert(out@ =~= goal.take(i as int + 1));
        }
    }
    proof {
        assert(out@ =~= goal);
    }
    out
}

/// Widen 16-bit values to raw 64-bit storage.
fn widen_u16(values: &Vec<u16>) -> (r: Vec<u64>)
    ensures
        r@ == values@.map_values(|v: u16| v as u64),
{
    let ghost goal = values@.map_values(|v: u16| v as u64);
    let mut out: Vec<u64> = Vec::new();
    for i in 0..values.len()
        invariant
            goal == values@.map_values(|v: u16| v as u64),
            out@ =~= goal.take(i as int),
    {
        out.push(values[i] as u64);
        proof {
            assert(out@ =~= goal.take(i as int + 1));
        }
    }
    proof {
        assert(out@ =~= goal);
    }
    out
}

/// Widen 32-bit values to raw 64-bit storage.
fn widen_u32(values: &Vec<u32>) -> (r: Vec<u64>)
    ensures
        r@ == values@.map_values(|v: u32| v as u64),
{
    let ghost goal = values@.map_values(|v: u32| v as u64);
    let mut out: Vec<u64> = Vec::new();
    for i in 0..values.len()
        invariant
            goal == values@.map_values(|v: u32| v as u64),
            out@ =~= goal.take(i as int),
    {
        out.push(values[i] as u64);
        proof {
            assert(out@ =~= goal.take(i as int + 1));
        }
    }
    proof {
        assert(out@ =~= goal);
    }
    out
}

/// Translate one source integer-array operation.
///
/// Indexed reads and writes and array creation become extension nodes
/// parameterized by the element width read off the first input; constant
/// arrays become constant-loading nodes tagged with their width.
pub fn build_int_array_op(
    iop: &IntArrayOp,
    op: &Operation,
    g: &mut Graph,
    parent: NodeId,
    ctx: &mut BuildContext,
) -> (r: Result<(), JeffToHugrError>)
    requires
        old(ctx).wf(),
        old(g).wf(),
        parent < old(g).nodes@.len(),
    ensures
        (*final(ctx)).wf(),
        (*final(g)).wf(),
        (*final(g)).edges@ == old(g).edges@,
        (*final(g)).order_edges@ == old(g).order_edges@,
        crate::to_hugr::graph_extended(*old(g), *final(g), parent),
        crate::wiring::wiring_bounded(old(ctx)@, old(g).nodes@.len() as nat)
            ==> crate::wiring::wiring_bounded((*final(ctx))@, (*final(g)).nodes@.len() as nat),
        r is Ok <==> (spec_intarray_ext_op(*iop, *op) is Some || (spec_intarray_const(
            *iop,
        ) is Some && op.inputs@.len() == 0 && op.outputs@.len() == 1)),
        spec_intarray_ext_op(*iop, *op) matches Some(ext) ==> spec_single_op(
            old(ctx)@,
            *old(g),
            parent,
            NodeOp::Extension { op: ext },
            op.inputs@,
            op.outputs@,
            spec_jeffop_inputs(ext).len() as int,
            spec_jeffop_outputs(ext).len() as int,
            (*final(ctx))@,
            *final(g),
        ),
        r is Ok ==> (spec_intarray_const(*iop) matches Some((vals, bits)) ==> exists|c: ConstIntReg|
            c.spec_values() == vals && c.spec_bits() == bits && spec_const_op(
                old(ctx)@,
                *old(g),
                parent,
                ConstValue::IntReg(c),
                op.outputs@,
                (*final(ctx))@,
                *final(g),
            )),
        r is Err ==> (*final(g)).nodes@ == old(g).nodes@ && *final(ctx) == *old(ctx),
        r matches Err(e) ==> e is UnsupportedOperation,
{
    let ghost w0 = ctx@;
    let r = match iop {
        IntArrayOp::Create => match input_bits(op) {
            Some(bits) => {
                let ext_op = JeffOp::IntArrayCreate { bits, inputs: op.inputs.len() };
                let sig = ext_op.signature();
                let n_in = sig.inputs.len();
                let n_out = sig.outputs.len();
                ctx.build_single_op(NodeOp::Extension { op: ext_op }, op, g, parent, n_in, n_out);
                Ok(())
            },
            None => Err(JeffToHugrError::unsupported_op("IntArrayCreate".to_owned())),
        },
        IntArrayOp::GetIndex => match input_bits(op) {
            Some(bits) => {
                let ext_op = JeffOp::IntArrayGet { bits };
                let sig = ext_op.signature();
                let n_in = sig.inputs.len();
                let n_out = sig.outputs.len();
                ctx.build_single_op(NodeOp::Extension { op: ext_op }, op, g, parent, n_in, n_out);
                Ok(())
            },
            None => Err(JeffToHugrError::unsupported_op("IntArrayGetIndex".to_owned())),
        },
        IntArrayOp::SetIndex => match input_bits(op) {
            Some(bits) => {
                let ext_op = JeffOp::IntArraySet { bits };
                let sig = ext_op.signature();
                let n_in = sig.inputs.len();
                let n_out = sig.outputs.len();
                ctx.build_single_op(NodeOp::Extension { op: ext_op }, op, g, parent, n_in, n_out);
                Ok(())
            },
            None => Err(JeffToHugrError::unsupported_op("IntArraySetIndex".to_owned())),
        },
        IntArrayOp::Zero { bits } => {
            let ext_op = JeffOp::IntArrayZero { bits: *bits };
            let sig = ext_op.signature();
            let n_in = sig.inputs.len();
            let n_out = sig.outputs.len();
            ctx.build_single_op(NodeOp::Extension { op: ext_op }, op, g, parent, n_in, n_out);
            Ok(())
        },
        IntArrayOp::ConstArray8 { values } => {
            let const_val = ConstIntReg::new(widen_u8(values), 8);
            ctx.build_constant_value(
                ConstValue::IntReg(const_val),
                op,
                g,
                parent,
                "IntArrayConst8".to_owned(),
            )
        },
        IntArrayOp::ConstArray16 { values } => {
            let const_val = ConstIntReg::new(widen_u16(values), 16);
            ctx.build_constant_value(
                ConstValue::IntReg(const_val),
                op,
                g,
                parent,
                "IntArrayConst16".to_owned(),
            )
        },
        IntArrayOp::ConstArray32 { values } => {
            let const_val = ConstIntReg::new(widen_u32(values), 32);
            ctx.build_constant_value(
                ConstValue::IntReg(const_val),
                op,
                g,
                parent,
                "IntArrayConst32".to_owned(),
            )
        },
        IntArrayOp::ConstArray64 { values } => {
            let const_val = ConstIntReg::new(copy_u64(values), 64);
            ctx.build_constant_value(
                ConstValue::IntReg(const_val),
                op,
                g,
                parent,
                "IntArrayConst64".to_owned(),
            )
        },
        IntArrayOp::Other => Err(JeffToHugrError::unsupported_op("IntArrayOp".to_owned())),
    };
    proof {
        if (*g).nodes@.len() == old(g).nodes@.len() {
            crate::to_hugr::lemma_extended_refl(*old(g), *g, parent);
        } else {
            let nd = (*g).nodes@.last();
            crate::to_hugr::lemma_extended_push(*old(g), *g, parent, nd);
            if crate::wiring::wiring_bounded(w0, old(g).nodes@.len() as nat) {
                match spec_intarray_ext_op(*iop, *op) {
                    Some(ext) => {
                        crate::to_hugr::lemma_single_op_bounded(
                            w0,
                            *old(g),
                            parent,
                            NodeOp::Extension { op: ext },
                            op.inputs@,
                            op.outputs@,
                            spec_jeffop_inputs(ext).len() as int,
                            spec_jeffop_outputs(ext).len() as int,
                            ctx@,
                            *g,
                        );
                    },
                    None => {
                        let c = choose|c: ConstIntReg|
                            c.spec_values() == spec_intarray_const(*iop)->Some_0.0 && c.spec_bits()
                                == spec_intarray_const(*iop)->Some_0.1 && spec_const_op(
                                w0,
                                *old(g),
                                parent,
                                ConstValue::IntReg(c),
                                op.outputs@,
                                ctx@,
                                *g,
                            );
                        crate::to_hugr::lemma_const_op_bounded(
                            w0,
                            *old(g),
                            parent,
                            ConstValue::IntReg(c),
                            op.outputs@,
                            ctx@,
                            *g,
                        );
                    },
                }
            }
        }
    }
    r
}

/// Copy 64-bit values as they stand.
fn copy_u64(values: &Vec<u64>) -> (r: Vec<u64>)
    ensures
        r@ == values@,
{
    let mut out: Vec<u64> = Vec::new();
    for i in 0..values.len()
        invariant
            out@ =~= values@.take(i as int),
    {
        out.push(values[i]);
        proof {
            assert(out@ =~= values@.take(i as int + 1));
        }
    }
    proof {
        assert(out@ =~= values@);
    }
    out
}

/// The element width named by the operation's first input, executable
/// form.
fn input_bits(op: &Operation) -> (r: Option<u8>)
    ensures
        r == spec_input_bits(*op),
{
    if op.inputs.len() == 0 {
        return None;
    }
    match op.inputs[0].ty {
        JeffType::Int { bits } => Some(bits),
        JeffType::IntArray { bits } => Some(bits),
        _ => None,
    }
}

} // verus!
