//! Translation of source qubit operations, including gate
//! canonicalization.
//!
//! The application count ("power") mod 2 of a self-inverse generator
//! decides whether an application is structurally transparent or a single
//! primitive node; an odd-power swap is realized as a pure relabelling of
//! its values; parametric rotations get an inline radians-to-half-turns
//! conversion; and any other combination falls back to the generic
//! attributed gate of the extension vocabulary.

use vstd::prelude::*;
use crate::extension::{spec_jeffop_inputs, spec_jeffop_outputs, JeffOp};
use crate::graph::{ConstValue, Edge, FloatNodeOp, Graph, NodeData, NodeId, NodeOp, TketGate};
use crate::jeff_ir::{GateOp, GateOpType, Operation, QubitOp, WellKnownGate};
use crate::to_hugr::{min_len, spec_single_op, spec_transparent_r, JeffToHugrError};
use crate::wiring::{
    spec_merge, spec_register_input, spec_register_out_seq, BuildContext, PortRef, WiringView,
};

verus! {

/// The 64-bit pattern of the constant loaded to convert radians to
/// half-turns.
pub const PI_BITS: u64 = 0x400921FB54442D18;

/// How a gate application lowers.
#[derive(Clone, Copy, Debug, PartialEq, Eq, Structural)]
pub enum GateLowering {
    /// No node: inputs merge into outputs.
    Transparent,
    /// One primitive node.
    Single(TketGate),
    /// No node: each output merges into the other input.
    SwapRelabel,
    /// One primitive node plus an inline unit conversion per parameter.
    Parametric(TketGate),
    /// The generic attributed gate of the extension vocabulary.
    Generic,
}

/// Even powers of a self-inverse gate are transparent; odd powers are one
/// application.
pub open spec fn spec_parity(power: u64, t: TketGate) -> GateLowering {
    if power % 2 == 0 {
        GateLowering::Transparent
    } else {
        GateLowering::Single(t)
    }
}

/// How a gate application lowers, from its generator, adjoint flag,
/// control count and power.
///
/// The specific classes expect canonical modifiers - an adjoint of a
/// self-inverse generator folded into the power, say; a gate whose
/// modifiers are not canonical still lowers faithfully, through the
/// generic attributed gate, just less specifically.
pub open spec fn spec_gate_lowering(g: GateOp) -> GateLowering {
    match g.gate_type {
        GateOpType::WellKnown(wk) => match wk {
            WellKnownGate::I => GateLowering::Transparent,
            WellKnownGate::H => if g.control_qubits == 0 {
                spec_parity(g.power, TketGate::H)
            } else {
                GateLowering::Generic
            },
            WellKnownGate::X => if g.control_qubits == 0 {
                spec_parity(g.power, TketGate::X)
            } else if g.control_qubits == 1 {
                spec_parity(g.power, TketGate::CX)
            } else {
                GateLowering::Generic
            },
            WellKnownGate::Y => if g.control_qubits == 0 {
                spec_parity(g.power, TketGate::Y)
            } else if g.control_qubits == 1 {
                spec_parity(g.power, TketGate::CY)
            } else {
                GateLowering::Generic
            },
            WellKnownGate::Z => if g.control_qubits == 0 {
                spec_parity(g.power, TketGate::Z)
            } else if g.control_qubits == 1 {
                spec_parity(g.power, TketGate::CZ)
            } else {
                GateLowering::Generic
            },
            WellKnownGate::S => if g.control_qubits == 0 && g.power == 1 {
                if g.adjoint {
                    GateLowering::Single(TketGate::Sdg)
                } else {
                    GateLowering::Single(TketGate::S)
                }
            } else {
                GateLowering::Generic
            },
            WellKnownGate::T => if g.control_qubits == 0 && g.power == 1 {
                if g.adjoint {
                    GateLowering::Single(TketGate::Tdg)
                } else {
                    GateLowering::Single(TketGate::T)
                }
            } else {
                GateLowering::Generic
            },
            WellKnownGate::Rx => if !g.adjoint && g.control_qubits == 0 && g.power == 1 {
                GateLowering::Parametric(TketGate::Rx)
            } else {
                GateLowering::Generic
            },
            WellKnownGate::Ry => if !g.adjoint && g.control_qubits == 0 && g.power == 1 {
                GateLowering::Parametric(TketGate::Ry)
            } else {
                GateLowering::Generic
            },
            WellKnownGate::Rz => if !g.adjoint && g.control_qubits == 0 && g.power == 1 {
                GateLowering::Parametric(TketGate::Rz)
            } else {
                GateLowering::Generic
            },
            WellKnownGate::Swap => if g.control_qubits == 0 {
                if g.power % 2 == 0 {
                    GateLowering::Transparent
                } else {
                    GateLowering::SwapRelabel
                }
            } else {
                GateLowering::Generic
            },
        },
        _ => GateLowering::Generic,
    }
}

/// A self-inverse single-qubit gate - Hadamard or a Pauli generator -
/// with no controls lowers by the parity of its power: an even power is
/// structurally transparent and contributes no node, while an odd power
/// contributes exactly one primitive node. Together with the translation
/// contracts this pins the node count of such gates to zero or one.
pub proof fn lemma_self_inverse_gate_parity(gate: GateOp)
    requires
        gate.gate_type matches GateOpType::WellKnown(wk) && (wk == WellKnownGate::H || wk
            == WellKnownGate::X || wk == WellKnownGate::Y || wk == WellKnownGate::Z),
        gate.control_qubits == 0,
    ensures
        gate.power % 2 == 0 ==> spec_gate_lowering(gate) == GateLowering::Transparent,
        gate.power % 2 == 1 ==> spec_gate_lowering(gate) matches GateLowering::Single(t),
{
}

/// The name under which a gate falls back to the generic attributed gate.
pub open spec fn spec_gate_name(gt: GateOpType) -> Seq<char> {
    match gt {
        GateOpType::WellKnown(wk) => spec_wk_name(wk),
        GateOpType::PauliProdRotation { pauli_string } => pauli_string@,
        GateOpType::Custom { name } => name@,
    }
}

/// The names of the well-known generators.
pub open spec fn spec_wk_name(wk: WellKnownGate) -> Seq<char> {
    match wk {
        WellKnownGate::I => "I"@,
        WellKnownGate::H => "H"@,
        WellKnownGate::X => "X"@,
        WellKnownGate::Y => "Y"@,
        WellKnownGate::Z => "Z"@,
        WellKnownGate::S => "S"@,
        WellKnownGate::T => "T"@,
        WellKnownGate::Rx => "Rx"@,
        WellKnownGate::Ry => "Ry"@,
        WellKnownGate::Rz => "Rz"@,
        WellKnownGate::Swap => "Swap"@,
    }
}

/// The two merges that relabel an odd-power swap: each output merges into
/// the other input, in either numbering order. `None` only when the
/// operation has fewer than two inputs or two outputs.
pub open spec fn spec_swap(w: WiringView, op: Operation) -> Option<WiringView> {
    if op.inputs@.len() < 2 || op.outputs@.len() < 2 {
        None
    } else {
        let a_in = op.inputs@[0].id;
        let b_in = op.inputs@[1].id;
        let a_out = op.outputs@[0].id;
        let b_out = op.outputs@[1].id;
        Some(spec_merge(spec_merge(w, a_out, b_in), b_out, a_in))
    }
}

/// The outcome of lowering a parametric rotation: one rotation node, and -
/// when the operation carries its angle - a loaded half-turn divisor, a
/// division node and a conversion node feeding its rotation port.
/// One constant is shared by the conversion chain of the invocation.
pub open spec fn spec_parametric(
    w0: WiringView,
    g0: Graph,
    parent: NodeId,
    t: TketGate,
    op: Operation,
    w1: WiringView,
    g1: Graph,
) -> bool {
    let n0 = g0.nodes@.len() as usize;
    if op.inputs@.len() >= 2 {
        let pi = (n0 + 1) as usize;
        let div = (n0 + 2) as usize;
        let rot = (n0 + 3) as usize;
        &&& g1.nodes@ == g0.nodes@.push(NodeData { parent: Some(parent), op: NodeOp::TketOp { op: t } }).push(
            NodeData { parent: Some(parent), op: NodeOp::LoadValue { value: ConstValue::F64 { bits: PI_BITS } } },
        ).push(NodeData { parent: Some(parent), op: NodeOp::FloatOp { op: FloatNodeOp::Fdiv } }).push(
            NodeData { parent: Some(parent), op: NodeOp::RotationFromHalfTurns },
        )
        &&& g1.edges@ == g0.edges@.push(Edge { src: pi, src_port: 0, dst: div, dst_port: 1 }).push(
            Edge { src: div, src_port: 0, dst: rot, dst_port: 0 },
        ).push(Edge { src: rot, src_port: 0, dst: n0, dst_port: 1 })
        &&& g1.order_edges@ == g0.order_edges@
        &&& w1 == spec_register_out_seq(
            spec_register_input(
                spec_register_input(w0, op.inputs@[0].id, PortRef { node: n0, port: 0 }),
                op.inputs@[1].id,
                PortRef { node: div, port: 0 },
            ),
            op.outputs@,
            n0,
            min_len(1, op.outputs@.len() as int),
        )
    } else {
        &&& g1.nodes@ == g0.nodes@.push(NodeData { parent: Some(parent), op: NodeOp::TketOp { op: t } })
        &&& g1.edges@ == g0.edges@
        &&& g1.order_edges@ == g0.order_edges@
        &&& w1 == spec_register_out_seq(
            if op.inputs@.len() == 1 {
                spec_register_input(w0, op.inputs@[0].id, PortRef { node: n0, port: 0 })
            } else {
                w0
            },
            op.outputs@,
            n0,
            min_len(1, op.outputs@.len() as int),
        )
    }
}

/// The outcome of lowering a gate to the generic attributed gate: one
/// node of the extension vocabulary carrying its name, counts and
/// flags.
pub open spec fn spec_generic_gate(
    gate: GateOp,
    op: Operation,
    w0: WiringView,
    g0: Graph,
    parent: NodeId,
    w1: WiringView,
    g1: Graph,
) -> bool {
    exists|nm: String|
        #![trigger nm@]
        nm@ == spec_gate_name(gate.gate_type) && spec_single_op(
            w0,
            g0,
            parent,
            NodeOp::Extension {
                op: JeffOp::QGate {
                    name: nm,
                    qubits: (gate.num_qubits - gate.control_qubits) as usize,
                    params: gate.num_params as usize,
                    control: gate.control_qubits as usize,
                    adjoint: gate.adjoint,
                    power: gate.power,
                },
            },
            op.inputs@,
            op.outputs@,
            (gate.num_qubits + gate.num_params) as int,
            gate.num_qubits as int,
            w1,
            g1,
        )
}

/// What lowering one gate application does to the context and the graph,
/// by its canonical class.
pub open spec fn spec_gate_built(
    gate: GateOp,
    op: Operation,
    w0: WiringView,
    g0: Graph,
    parent: NodeId,
    w1: WiringView,
    g1: Graph,
    ok: bool,
) -> bool {
    match spec_gate_lowering(gate) {
        GateLowering::Transparent => {
            let cnt = min_len(op.inputs@.len() as int, op.outputs@.len() as int);
            &&& (ok <==> spec_transparent_r(w0, op.inputs@, op.outputs@, cnt) is Some)
            &&& (ok ==> Some(w1) == spec_transparent_r(w0, op.inputs@, op.outputs@, cnt)
                && g1.nodes@ == g0.nodes@ && g1.edges@ == g0.edges@ && g1.order_edges@
                == g0.order_edges@)
        },
        GateLowering::Single(t) => ok && spec_single_op(
            w0,
            g0,
            parent,
            NodeOp::TketOp { op: t },
            op.inputs@,
            op.outputs@,
            t.spec_num_inputs() as int,
            t.spec_num_outputs() as int,
            w1,
            g1,
        ),
        GateLowering::SwapRelabel => {
            &&& (ok <==> spec_swap(w0, op) is Some)
            &&& (ok ==> Some(w1) == spec_swap(w0, op) && g1.nodes@ == g0.nodes@ && g1.edges@
                == g0.edges@ && g1.order_edges@ == g0.order_edges@)
        },
        GateLowering::Parametric(t) => ok && spec_parametric(w0, g0, parent, t, op, w1, g1),
        GateLowering::Generic => {
            &&& (ok <==> gate.control_qubits <= gate.num_qubits)
            &&& (ok ==> spec_generic_gate(gate, op, w0, g0, parent, w1, g1))
        },
    }
}

/// The canonical lowering class of a gate, executable form.
pub fn gate_lowering(g: &GateOp) -> (r: GateLowering)
    ensures
        r == spec_gate_lowering(*g),
{
    match &g.gate_type {
        GateOpType::WellKnown(wk) => match wk {
            WellKnownGate::I => GateLowering::Transparent,
            WellKnownGate::H => if g.control_qubits == 0 {
                parity(g.power, TketGate::H)
            } else {
                GateLowering::Generic
            },
            WellKnownGate::X => if g.control_qubits == 0 {
                parity(g.power, TketGate::X)
            } else if g.control_qubits == 1 {
                parity(g.power, TketGate::CX)
            } else {
                GateLowering::Generic
            },
            WellKnownGate::Y => if g.control_qubits == 0 {
                parity(g.power, TketGate::Y)
            } else if g.control_qubits == 1 {
                parity(g.power, TketGate::CY)
            } else {
                GateLowering::Generic
            },
            WellKnownGate::Z => if g.control_qubits == 0 {
                parity(g.power, TketGate::Z)
            } else if g.control_qubits == 1 {
                parity(g.power, TketGate::CZ)
            } else {
                GateLowering::Generic
            },
            WellKnownGate::S => if g.control_qubits == 0 && g.power == 1 {
                if g.adjoint {
                    GateLowering::Single(TketGate::Sdg)
                } else {
                    GateLowering::Single(TketGate::S)
                }
            } else {
                GateLowering::Generic
            },
            WellKnownGate::T => if g.control_qubits == 0 && g.power == 1 {
                if g.adjoint {
                    GateLowering::Single(TketGate::Tdg)
                } else {
                    GateLowering::Single(TketGate::T)
                }
            } else {
                GateLowering::Generic
            },
            WellKnownGate::Rx => if !g.adjoint && g.control_qubits == 0 && g.power == 1 {
                GateLowering::Parametric(TketGate::Rx)
            } else {
                GateLowering::Generic
            },
            WellKnownGate::Ry => if !g.adjoint && g.control_qubits == 0 && g.power == 1 {
                GateLowering::Parametric(TketGate::Ry)
            } else {
                GateLowering::Generic
            },
            WellKnownGate::Rz => if !g.adjoint && g.control_qubits == 0 && g.power == 1 {
                GateLowering::Parametric(TketGate::Rz)
            } else {
                GateLowering::Generic
            },
            WellKnownGate::Swap => if g.control_qubits == 0 {
                if g.power % 2 == 0 {
                    GateLowering::Transparent
                } else {
                    GateLowering::SwapRelabel
                }
            } else {
                GateLowering::Generic
            },
        },
        _ => GateLowering::Generic,
    }
}

/// Even powers of a self-inverse gate are transparent, executable form.
fn parity(power: u64, t: TketGate) -> (r: GateLowering)
    ensures
        r == spec_parity(power, t),
{
    if power % 2 == 0 {
        GateLowering::Transparent
    } else {
        GateLowering::Single(t)
    }
}

/// The name under which a gate falls back, executable form.
fn gate_name(gt: &GateOpType) -> (r: String)
    ensures
        r@ == spec_gate_name(*gt),
{
    match gt {
        GateOpType::WellKnown(wk) => match wk {
            WellKnownGate::I => "I".to_owned(),
            WellKnownGate::H => "H".to_owned(),
            WellKnownGate::X => "X".to_owned(),
            WellKnownGate::Y => "Y".to_owned(),
            WellKnownGate::Z => "Z".to_owned(),
            WellKnownGate::S => "S".to_owned(),
            WellKnownGate::T => "T".to_owned(),
            WellKnownGate::Rx => "Rx".to_owned(),
            WellKnownGate::Ry => "Ry".to_owned(),
            WellKnownGate::Rz => "Rz".to_owned(),
            WellKnownGate::Swap => "Swap".to_owned(),
        },
        GateOpType::PauliProdRotation { pauli_string } => pauli_string.clone(),
        GateOpType::Custom { name } => name.clone(),
    }
}

/// Lower one gate application by its canonical class.
pub fn build_gate_op(
    gate: &GateOp,
    op: &Operation,
    g: &mut Graph,
    parent: NodeId,
    ctx: &mut BuildContext,
) -> (r: Result<(), JeffToHugrError>)
    requires
        old(ctx).wf(),
        old(g).wf(),
        parent < old(g).nodes@.len(),
    ensures
        (*final(ctx)).wf(),
        (*final(g)).wf(),
        (*final(g)).order_edges@ == old(g).order_edges@,
        old(g).edges@.is_prefix_of((*final(g)).edges@),
        spec_gate_built(
            *gate,
            *op,
            old(ctx)@,
            *old(g),
            parent,
            (*final(ctx))@,
            *final(g),
            r is Ok,
        ),
        crate::to_hugr::graph_extended(*old(g), *final(g), parent),
        crate::wiring::wiring_bounded(old(ctx)@, old(g).nodes@.len() as nat)
            ==> crate::wiring::wiring_bounded((*final(ctx))@, (*final(g)).nodes@.len() as nat),
        r is Err ==> (*final(g)).nodes@ == old(g).nodes@ && (*final(g)).edges@ == old(g).edges@,
        r matches Err(e) ==> e is UnsupportedOperation,
{
    let ghost w0 = ctx@;
    let lowering = gate_lowering(gate);
    match lowering {
        GateLowering::Transparent => {
            let r = ctx.build_transparent_op(op, "Gate".to_owned());
            proof {
                assert(old(g).edges@.is_prefix_of((*g).edges@)) by {
                    assert((*g).edges@.subrange(0, old(g).edges@.len() as int) =~= old(g).edges@);
                }
                if crate::wiring::wiring_bounded(w0, old(g).nodes@.len() as nat) {
                    assert(crate::wiring::wiring_bounded(ctx@, old(g).nodes@.len() as nat));
                }
            }
            r
        },
        GateLowering::Single(t) => {
            let n_in = t.num_inputs();
            let n_out = t.num_outputs();
            ctx.build_single_op(NodeOp::TketOp { op: t }, op, g, parent, n_in, n_out);
            proof {
                assert(old(g).edges@.is_prefix_of((*g).edges@)) by {
                    assert((*g).edges@.subrange(0, old(g).edges@.len() as int) =~= old(g).edges@);
                }
                if crate::wiring::wiring_bounded(w0, old(g).nodes@.len() as nat) {
                    crate::to_hugr::lemma_single_op_bounded(
                        w0,
                        *old(g),
                        parent,
                        NodeOp::TketOp { op: t },
                        op.inputs@,
                        op.outputs@,
                        t.spec_num_inputs() as int,
                        t.spec_num_outputs() as int,
                        ctx@,
                        *g,
                    );
                }
            }
            Ok(())
        },
        GateLowering::SwapRelabel => {
            if op.inputs.len() < 2 || op.outputs.len() < 2 {
                return Err(JeffToHugrError::unsupported_op("Swap".to_owned()));
            }
            let a_in = op.inputs[0].id;
            let b_in = op.inputs[1].id;
            let a_out = op.outputs[0].id;
            let b_out = op.outputs[1].id;
            ctx.merge_with_earlier(a_out, b_in);
            proof {
                if crate::wiring::wiring_bounded(w0, old(g).nodes@.len() as nat) {
                    crate::to_hugr::lemma_merge_bounded(
                        w0,
                        a_out,
                        b_in,
                        old(g).nodes@.len() as nat,
                    );
                }
            }
            ctx.merge_with_earlier(b_out, a_in);
            proof {
                assert(old(g).edges@.is_prefix_of((*g).edges@)) by {
                    assert((*g).edges@.subrange(0, old(g).edges@.len() as int) =~= old(g).edges@);
                }
                if crate::wiring::wiring_bounded(w0, old(g).nodes@.len() as nat) {
                    crate::to_hugr::lemma_merge_bounded(
                        crate::wiring::spec_merge(w0, a_out, b_in),
                        b_out,
                        a_in,
                        old(g).nodes@.len() as nat,
                    );
                }
            }
            Ok(())
        },
        GateLowering::Parametric(t) => build_parametric_tket_op(ctx, t, op, g, parent),
        GateLowering::Generic => {
            if gate.control_qubits > gate.num_qubits {
                return Err(JeffToHugrError::unsupported_op("Gate".to_owned()));
            }
            let name = gate_name(&gate.gate_type);
            let ext_op = JeffOp::jeff_gate_op(name, gate);
            let n_in_big: u64 = gate.num_qubits as u64 + gate.num_params as u64;
            let n_in: usize = if n_in_big >= op.inputs.len() as u64 {
                op.inputs.len()
            } else {
                n_in_big as usize
            };
            let n_out = gate.num_qubits as usize;
            proof {
                assert(spec_jeffop_inputs(ext_op).len() == (gate.num_qubits
                    - gate.control_qubits) + gate.control_qubits + gate.num_params);
                assert(spec_jeffop_outputs(ext_op).len() == n_out);
                assert(min_len(n_in as int, op.inputs@.len() as int) == min_len(
                    (gate.num_qubits + gate.num_params) as int,
                    op.inputs@.len() as int,
                ));
            }
            ctx.build_single_op(NodeOp::Extension { op: ext_op }, op, g, parent, n_in, n_out);
            proof {
                assert(old(g).edges@.is_prefix_of((*g).edges@)) by {
                    assert((*g).edges@.subrange(0, old(g).edges@.len() as int) =~= old(g).edges@);
                }
                if crate::wiring::wiring_bounded(w0, old(g).nodes@.len() as nat) {
                    crate::to_hugr::lemma_single_op_bounded(
                        w0,
                        *old(g),
                        parent,
                        NodeOp::Extension { op: ext_op },
                        op.inputs@,
                        op.outputs@,
                        n_in as int,
                        n_out as int,
                        ctx@,
                        *g,
                    );
                    assert(crate::to_hugr::min_len(n_in as int, op.inputs@.len() as int)
                        == crate::to_hugr::min_len(
                        (gate.num_qubits + gate.num_params) as int,
                        op.inputs@.len() as int,
                    ));
                }
            }
            Ok(())
        },
    }
}

/// Emit a single node that expects rotation-type parameters.
///
/// Source rotations come in radians; the target's convention is
/// half-turns, so the angle input runs through an inline division by a
/// shared loaded constant before a conversion into the rotation type.
pub fn build_parametric_tket_op(
    ctx: &mut BuildContext,
    t: TketGate,
    jeff_op: &Operation,
    g: &mut Graph,
    parent: NodeId,
) -> (r: Result<(), JeffToHugrError>)
    requires
        old(ctx).wf(),
        old(g).wf(),
        parent < old(g).nodes@.len(),
    ensures
        (*final(ctx)).wf(),
        (*final(g)).wf(),
        (*final(g)).order_edges@ == old(g).order_edges@,
        old(g).edges@.is_prefix_of((*final(g)).edges@),
        r is Ok,
        spec_parametric(old(ctx)@, *old(g), parent, t, *jeff_op, (*final(ctx))@, *final(g)),
        crate::to_hugr::graph_extended(*old(g), *final(g), parent),
        crate::wiring::wiring_bounded(old(ctx)@, old(g).nodes@.len() as nat)
            ==> crate::wiring::wiring_bounded((*final(ctx))@, (*final(g)).nodes@.len() as nat),
{
    let ghost w0 = ctx@;
    let node = g.add_node(parent, NodeOp::TketOp { op: t });
    if jeff_op.inputs.len() >= 2 {
        let pi = g.add_node(parent, NodeOp::LoadValue { value: ConstValue::F64 { bits: PI_BITS } });
        let div = g.add_node(parent, NodeOp::FloatOp { op: FloatNodeOp::Fdiv });
        let rot = g.add_node(parent, NodeOp::RotationFromHalfTurns);
        g.connect(pi, 0, div, 1);
        g.connect(div, 0, rot, 0);
        g.connect(rot, 0, node, 1);
        ctx.register_input(jeff_op.inputs[0].id, node, 0);
        ctx.register_input(jeff_op.inputs[1].id, div, 0);
    } else if jeff_op.inputs.len() == 1 {
        ctx.register_input(jeff_op.inputs[0].id, node, 0);
    }
    let n_out = if jeff_op.outputs.len() < 1 {
        jeff_op.outputs.len()
    } else {
        1
    };
    ctx.register_outputs(&jeff_op.outputs, n_out, node);
    proof {
        assert(old(g).edges@.is_prefix_of((*g).edges@)) by {
            assert((*g).edges@.subrange(0, old(g).edges@.len() as int) =~= old(g).edges@);
        }
        if crate::wiring::wiring_bounded(w0, old(g).nodes@.len() as nat) {
            let n = (*g).nodes@.len() as nat;
            crate::to_hugr::lemma_ports_bounded_mono(w0.inputs, old(g).nodes@.len() as nat, n);
            crate::to_hugr::lemma_ports_bounded_mono(w0.outputs, old(g).nodes@.len() as nat, n);
            let w_in = if jeff_op.inputs@.len() >= 2 {
                crate::wiring::spec_register_input(
                    crate::wiring::spec_register_input(
                        w0,
                        jeff_op.inputs@[0].id,
                        PortRef { node, port: 0 },
                    ),
                    jeff_op.inputs@[1].id,
                    PortRef { node: (node + 2) as usize, port: 0 },
                )
            } else if jeff_op.inputs@.len() == 1 {
                crate::wiring::spec_register_input(
                    w0,
                    jeff_op.inputs@[0].id,
                    PortRef { node, port: 0 },
                )
            } else {
                w0
            };
            if jeff_op.inputs@.len() >= 2 {
                crate::wiring::lemma_push_port_bounded(
                    w0.inputs,
                    crate::wiring::canonical(w0.alias, jeff_op.inputs@[0].id),
                    PortRef { node, port: 0 },
                    n,
                );
                crate::wiring::lemma_push_port_bounded(
                    crate::wiring::spec_register_input(
                        w0,
                        jeff_op.inputs@[0].id,
                        PortRef { node, port: 0 },
                    ).inputs,
                    crate::wiring::canonical(w0.alias, jeff_op.inputs@[1].id),
                    PortRef { node: (node + 2) as usize, port: 0 },
                    n,
                );
            } else if jeff_op.inputs@.len() == 1 {
                crate::wiring::lemma_push_port_bounded(
                    w0.inputs,
                    crate::wiring::canonical(w0.alias, jeff_op.inputs@[0].id),
                    PortRef { node, port: 0 },
                    n,
                );
            }
            crate::wiring::lemma_register_out_seq_facts(
                w_in,
                jeff_op.outputs@,
                node,
                crate::to_hugr::min_len(1, jeff_op.outputs@.len() as int),
                n,
            );
        }
    }
    Ok(())
}

/// The primitive operation a source qubit operation other than a gate
/// maps to.
pub open spec fn spec_qubit_single(qop: QubitOp) -> Option<TketGate> {
    match qop {
        QubitOp::Alloc => Some(TketGate::QAlloc),
        QubitOp::Free => Some(TketGate::QFree),
        QubitOp::FreeZero => Some(TketGate::QFree),
        QubitOp::Measure => Some(TketGate::MeasureFree),
        QubitOp::MeasureNd => Some(TketGate::Measure),
        QubitOp::Reset => Some(TketGate::Reset),
        _ => None,
    }
}

/// Translate one source qubit operation.
///
/// Allocation, freeing, measurement and reset map to single primitive
/// nodes (freeing a qubit known to be zero folds into the plain free);
/// gate applications lower by their canonical class.
pub fn build_qubit_op(
    qop: &QubitOp,
    op: &Operation,
    g: &mut Graph,
    parent: NodeId,
    ctx: &mut BuildContext,
) -> (r: Result<(), JeffToHugrError>)
    requires
        old(ctx).wf(),
        old(g).wf(),
        parent < old(g).nodes@.len(),
    ensures
        (*final(ctx)).wf(),
        (*final(g)).wf(),
        (*final(g)).order_edges@ == old(g).order_edges@,
        old(g).edges@.is_prefix_of((*final(g)).edges@),
        spec_qubit_single(*qop) matches Some(t) ==> r is Ok && spec_single_op(
            old(ctx)@,
            *old(g),
            parent,
            NodeOp::TketOp { op: t },
            op.inputs@,
            op.outputs@,
            t.spec_num_inputs() as int,
            t.spec_num_outputs() as int,
            (*final(ctx))@,
            *final(g),
        ),
        *qop matches QubitOp::Gate(gate) ==> spec_gate_built(
            gate,
            *op,
            old(ctx)@,
            *old(g),
            parent,
            (*final(ctx))@,
            *final(g),
            r is Ok,
        ),
        crate::to_hugr::graph_extended(*old(g), *final(g), parent),
        *qop is Other ==> r is Err,
        crate::wiring::wiring_bounded(old(ctx)@, old(g).nodes@.len() as nat)
            ==> crate::wiring::wiring_bounded((*final(ctx))@, (*final(g)).nodes@.len() as nat),
        r is Err ==> (*final(g)).nodes@ == old(g).nodes@ && (*final(g)).edges@ == old(g).edges@,
        r matches Err(e) ==> e is UnsupportedOperation,
{
    let ghost w0 = ctx@;
    match qop {
        QubitOp::Alloc => {
            ctx.build_single_op(NodeOp::TketOp { op: TketGate::QAlloc }, op, g, parent, 0, 1);
            proof {
                assert(old(g).edges@.is_prefix_of((*g).edges@)) by {
                    assert((*g).edges@.subrange(0, old(g).edges@.len() as int) =~= old(g).edges@);
                }
                if crate::wiring::wiring_bounded(w0, old(g).nodes@.len() as nat) {
                    crate::to_hugr::lemma_single_op_bounded(
                        w0,
                        *old(g),
                        parent,
                        NodeOp::TketOp { op: TketGate::QAlloc },
                        op.inputs@,
                        op.outputs@,
                        0 as int,
                        1 as int,
                        ctx@,
                        *g,
                    );
                }
            }
            Ok(())
        },
        QubitOp::Free => {
            ctx.build_single_op(NodeOp::TketOp { op: TketGate::QFree }, op, g, parent, 1, 0);
            proof {
                assert(old(g).edges@.is_prefix_of((*g).edges@)) by {
                    assert((*g).edges@.subrange(0, old(g).edges@.len() as int) =~= old(g).edges@);
                }
                if crate::wiring::wiring_bounded(w0, old(g).nodes@.len() as nat) {
                    crate::to_hugr::lemma_single_op_bounded(
                        w0,
                        *old(g),
                        parent,
                        NodeOp::TketOp { op: TketGate::QFree },
                        op.inputs@,
                        op.outputs@,
                        1 as int,
                        0 as int,
                        ctx@,
                        *g,
                    );
                }
            }
            Ok(())
        },
        QubitOp::FreeZero => {
            ctx.build_single_op(NodeOp::TketOp { op: TketGate::QFree }, op, g, parent, 1, 0);
            proof {
                assert(old(g).edges@.is_prefix_of((*g).edges@)) by {
                    assert((*g).edges@.subrange(0, old(g).edges@.len() as int) =~= old(g).edges@);
                }
                if crate::wiring::wiring_bounded(w0, old(g).nodes@.len() as nat) {
                    crate::to_hugr::lemma_single_op_bounded(
                        w0,
                        *old(g),
                        parent,
                        NodeOp::TketOp { op: TketGate::QFree },
                        op.inputs@,
                        op.outputs@,
                        1 as int,
                        0 as int,
                        ctx@,
                        *g,
                    );
                }
            }
            Ok(())
        },
        QubitOp::Measure => {
            ctx.build_single_op(NodeOp::TketOp { op: TketGate::MeasureFree }, op, g, parent, 1, 1);
            proof {
                assert(old(g).edges@.is_prefix_of((*g).edges@)) by {
                    assert((*g).edges@.subrange(0, old(g).edges@.len() as int) =~= old(g).edges@);
                }
                if crate::wiring::wiring_bounded(w0, old(g).nodes@.len() as nat) {
                    crate::to_hugr::lemma_single_op_bounded(
                        w0,
                        *old(g),
                        parent,
                        NodeOp::TketOp { op: TketGate::MeasureFree },
                        op.inputs@,
                        op.outputs@,
                        1 as int,
                        1 as int,
                        ctx@,
                        *g,
                    );
                }
            }
            Ok(())
        },
        QubitOp::MeasureNd => {
            ctx.build_single_op(NodeOp::TketOp { op: TketGate::Measure }, op, g, parent, 1, 2);
            proof {
                assert(old(g).edges@.is_prefix_of((*g).edges@)) by {
                    assert((*g).edges@.subrange(0, old(g).edges@.len() as int) =~= old(g).edges@);
                }
                if crate::wiring::wiring_bounded(w0, old(g).nodes@.len() as nat) {
                    crate::to_hugr::lemma_single_op_bounded(
                        w0,
                        *old(g),
                        parent,
                        NodeOp::TketOp { op: TketGate::Measure },
                        op.inputs@,
                        op.outputs@,
                        1 as int,
                        2 as int,
                        ctx@,
                        *g,
                    );
                }
            }
            Ok(())
        },
        QubitOp::Reset => {
            ctx.build_single_op(NodeOp::TketOp { op: TketGate::Reset }, op, g, parent, 1, 1);
            proof {
                assert(old(g).edges@.is_prefix_of((*g).edges@)) by {
                    assert((*g).edges@.subrange(0, old(g).edges@.len() as int) =~= old(g).edges@);
                }
                if crate::wiring::wiring_bounded(w0, old(g).nodes@.len() as nat) {
                    crate::to_hugr::lemma_single_op_bounded(
                        w0,
                        *old(g),
                        parent,
                        NodeOp::TketOp { op: TketGate::Reset },
                        op.inputs@,
                        op.outputs@,
                        1 as int,
                        1 as int,
                        ctx@,
                        *g,
                    );
                }
            }
            Ok(())
        },
        QubitOp::Gate(gate_op) => build_gate_op(gate_op, op, g, parent, ctx),
        QubitOp::Other => Err(JeffToHugrError::unsupported_op("QubitOp".to_owned())),
    }
}

} // verus!
