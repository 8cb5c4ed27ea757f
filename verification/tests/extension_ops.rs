//! Tests of the extension vocabulary: operation construction, signature
//! computation and the constant integer array.

use hugr_jeff::extension::{
    floatreg_type, intreg_type, qureg_type, ConstIntReg, JeffGateNSignature,
    JeffIntArrayCreateSignature, JeffIntArrayGetSignature, JeffIntArraySetSignature, JeffOp,
    JeffOpDef, JeffQuregCreateSignature,
};
use hugr_jeff::jeff_ir::{FloatPrecision, GateOp, GateOpType, JeffType, WellKnownGate};
use hugr_jeff::types::{jeff_to_hugr, HugrType};

#[test]
fn quantum_gate_builds_the_attributed_op() {
    let op = JeffOp::quantum_gate("CRz".to_string(), 1, 1, 1, false, 1);
    assert_eq!(
        op,
        JeffOp::QGate {
            name: "CRz".to_string(),
            qubits: 1,
            params: 1,
            control: 1,
            adjoint: false,
            power: 1,
        },
    );
    assert_eq!(op.opdef(), JeffOpDef::QGate);
}

#[test]
fn gate_op_splits_controls_from_qubits() {
    let gate = GateOp {
        gate_type: GateOpType::Custom { name: "mygate".to_string() },
        adjoint: true,
        control_qubits: 2,
        power: 3,
        num_qubits: 5,
        num_params: 1,
    };
    let op = JeffOp::jeff_gate_op("mygate".to_string(), &gate);
    assert_eq!(
        op,
        JeffOp::QGate {
            name: "mygate".to_string(),
            qubits: 3,
            params: 1,
            control: 2,
            adjoint: true,
            power: 3,
        },
    );
}

#[test]
fn opdef_forgets_the_instantiation() {
    assert_eq!(JeffOp::QuregAlloc.opdef(), JeffOpDef::QuregAlloc);
    assert_eq!(JeffOp::QuregCreate { qubits: 4 }.opdef(), JeffOpDef::QuregCreate);
    assert_eq!(JeffOp::IntArrayCreate { bits: 8, inputs: 2 }.opdef(), JeffOpDef::IntArrayCreate);
    assert_eq!(JeffOp::IntArrayZero { bits: 16 }.opdef(), JeffOpDef::IntArrayZero);
}

#[test]
fn attributed_gate_signature_counts_ports() {
    let sig = JeffGateNSignature.compute_signature(2, 1, 3);
    assert_eq!(sig.inputs.len(), 6);
    assert_eq!(sig.outputs.len(), 3);
    assert_eq!(sig.inputs[0], HugrType::Qubit);
    assert_eq!(sig.inputs[3], HugrType::Float64);
}

#[test]
fn register_creation_signature() {
    let sig = JeffQuregCreateSignature.compute_signature(3);
    assert_eq!(sig.inputs, vec![HugrType::Qubit; 3]);
    assert_eq!(sig.outputs, vec![HugrType::Qureg]);
}

#[test]
fn int_array_signatures_use_the_element_width() {
    let create = JeffIntArrayCreateSignature.compute_signature(7, 2);
    assert_eq!(create.inputs, vec![jeff_to_hugr(JeffType::Int { bits: 7 }); 2]);
    assert_eq!(create.outputs, vec![HugrType::IntArray { bits: 7 }]);

    let get = JeffIntArrayGetSignature.compute_signature(8);
    assert_eq!(
        get.inputs,
        vec![HugrType::IntArray { bits: 8 }, HugrType::Int { log_width: 5 }],
    );
    assert_eq!(get.outputs, vec![HugrType::Int { log_width: 3 }]);

    let set = JeffIntArraySetSignature.compute_signature(8);
    assert_eq!(set.inputs.len(), 3);
    assert_eq!(set.outputs, vec![HugrType::IntArray { bits: 8 }]);
}

#[test]
fn container_types() {
    assert_eq!(qureg_type(), HugrType::Qureg);
    assert_eq!(intreg_type(8), HugrType::IntArray { bits: 8 });
    assert_eq!(
        floatreg_type(FloatPrecision::Float32),
        HugrType::FloatArray { precision: FloatPrecision::Float32 },
    );
}

#[test]
fn const_int_reg_keeps_its_values_and_width() {
    let c = ConstIntReg::new(vec![1, 2, 3], 16);
    assert_eq!(c.values(), &vec![1, 2, 3]);
    assert_eq!(c.bits(), 16);
}

#[test]
fn well_known_gate_vocabulary_is_closed() {
    // the self-inverse generators and the parametric rotations
    let wk = [
        WellKnownGate::I,
        WellKnownGate::H,
        WellKnownGate::X,
        WellKnownGate::Y,
        WellKnownGate::Z,
        WellKnownGate::S,
        WellKnownGate::T,
        WellKnownGate::Rx,
        WellKnownGate::Ry,
        WellKnownGate::Rz,
        WellKnownGate::Swap,
    ];
    assert_eq!(wk.len(), 11);
}
