//! The extension vocabulary of the target IR: source constructs with no
//! native target equivalent.
//!
//! It supplies an opaque qubit-register container type, an integer-array
//! container type parameterized by element width, a generic attributed
//! n-ary/parametric gate operation, and integer-array literal constants.

use vstd::prelude::*;
use crate::jeff_ir::{FloatPrecision, GateOp, JeffType};
use crate::types::{spec_jeff_to_hugr, HugrType, Signature};

verus! {

/// The non-instantiated operations of the extension vocabulary.
#[derive(Clone, Copy, Debug, PartialEq, Eq, Structural)]
pub enum JeffOpDef {
    /// Quantum gate with an arbitrary number of qubits and parameters.
    QGate,
    /// Allocate a new qubit register with a size parameter.
    QuregAlloc,
    /// Free a qubit register.
    QuregFree,
    /// Extract a qubit at the given index from a register.
    QuregExtractIndex,
    /// Insert a qubit at the given index into a register.
    QuregInsertIndex,
    /// Create a register of qubits from a variable number of input qubits.
    QuregCreate,
    /// Extract a slice of qubits from a register.
    QuregExtractSlice,
    /// Insert a slice of qubits into a register at a given index.
    QuregInsertSlice,
    /// Split a register of qubits into two registers.
    QuregSplit,
    /// Join two registers of qubits into a single register.
    QuregJoin,
    /// Returns the length of a qubit register.
    QuregLength,
    /// Allocate a new integer array with the given length.
    IntArrayCreate,
    /// Return the length of an integer array.
    IntArrayLength,
    /// Get the value at a given index in an integer array.
    IntArrayGet,
    /// Set the value at a given index in an integer array.
    IntArraySet,
    /// Create a zeroed integer array of a given bitwidth with dynamic length.
    IntArrayZero,
}

/// A concrete operation of the extension vocabulary.
#[derive(Clone, Debug, PartialEq, Eq)]
pub enum JeffOp {
    /// Quantum gate with an arbitrary number of qubits and parameters.
    ///
    /// It also stores flags for controlling, taking the adjoint, and
    /// applying a power of it.
    QGate {
        /// Its name.
        name: String,
        /// The number of qubits, controls not included.
        qubits: usize,
        /// Number of floating-point parameter inputs after the qubit inputs.
        params: usize,
        /// The number of control qubits.
        control: usize,
        /// Whether it is adjoint.
        adjoint: bool,
        /// How many times in a row to apply it.
        power: u64,
    },
    /// Allocate a new qubit register with a size parameter.
    QuregAlloc,
    /// Free a qubit register.
    QuregFree,
    /// Extract a qubit at the given index from a register.
    QuregExtractIndex,
    /// Insert a qubit at the given index into a register.
    QuregInsertIndex,
    /// Create a register of qubits from a variable number of input qubits.
    QuregCreate {
        /// The number of qubits in the register.
        qubits: usize,
    },
    /// Extract a slice of qubits from a register.
    QuregExtractSlice,
    /// Insert a slice of qubits into a register at a given index.
    QuregInsertSlice,
    /// Split a register of qubits into two registers.
    QuregSplit,
    /// Join two registers of qubits into a single register.
    QuregJoin,
    /// Returns the length of a qubit register.
    QuregLength,
    /// Allocate a new integer array with the given length.
    IntArrayCreate {
        /// The bitwidth of the integers in the array.
        bits: u8,
        /// The number of input integers.
        inputs: usize,
    },
    /// Return the length of an integer array.
    IntArrayLength {
        /// The bitwidth of the integers in the array.
        bits: u8,
    },
    /// Get the value at a given index in an integer array.
    IntArrayGet {
        /// The bitwidth of the integers in the array.
        bits: u8,
    },
    /// Set the value at a given index in an integer array.
    IntArraySet {
        /// The bitwidth of the integers in the array.
        bits: u8,
    },
    /// Create a zeroed integer array of a given bitwidth with dynamic length.
    IntArrayZero {
        /// The bitwidth of the integers in the array.
        bits: u8,
    },
}

/// The qubit-register type of the extension.
pub fn qureg_type() -> (r: HugrType)
    ensures
        r == HugrType::Qureg,
{
    HugrType::Qureg
}

/// The integer-array type of the extension, parameterized by element width.
pub fn intreg_type(bitwidth: u8) -> (r: HugrType)
    ensures
        r == (HugrType::IntArray { bits: bitwidth }),
{
    HugrType::IntArray { bits: bitwidth }
}

/// The float-array type of the extension, parameterized by precision.
pub fn floatreg_type(precision: FloatPrecision) -> (r: HugrType)
    ensures
        r == (HugrType::FloatArray { precision }),
{
    HugrType::FloatArray { precision }
}

/// `n` copies of the type `t`.
pub open spec fn repeated(t: HugrType, n: nat) -> Seq<HugrType> {
    Seq::new(n, |i: int| t)
}

/// Build `n` copies of the type `t`.
pub fn repeated_types(t: HugrType, n: usize) -> (r: Vec<HugrType>)
    ensures
        r@ == repeated(t, n as nat),
{
    let mut out: Vec<HugrType> = Vec::new();
    for i in 0..n
        invariant
            out@ =~= repeated(t, i as nat),
    {
        out.push(t);
        proof {
            assert(out@ =~= repeated(t, i as nat + 1));
        }
    }
    out
}

/// The 32-bit integer type, as the extension's length and index arguments
/// use it.
pub open spec fn spec_int32_t() -> HugrType {
    HugrType::Int { log_width: 5 }
}

/// The target type of a source integer of the given width.
pub open spec fn spec_int_t(bits: u8) -> HugrType {
    spec_jeff_to_hugr(JeffType::Int { bits })
}

/// The input types of the attributed n-ary gate: its qubits, then its
/// controls, then its floating-point parameters.
pub open spec fn spec_qgate_inputs(qubits: nat, control: nat, params: nat) -> Seq<HugrType> {
    repeated(HugrType::Qubit, qubits) + repeated(HugrType::Qubit, control) + repeated(
        HugrType::Float64,
        params,
    )
}

/// The output types of the attributed n-ary gate: its qubits, then its
/// controls.
pub open spec fn spec_qgate_outputs(qubits: nat, control: nat) -> Seq<HugrType> {
    repeated(HugrType::Qubit, qubits) + repeated(HugrType::Qubit, control)
}

/// Computes the signature of the attributed n-ary gate operation from its
/// qubit, control and parameter counts.
#[derive(Clone, Copy, Debug)]
pub struct JeffGateNSignature;

impl JeffGateNSignature {
    /// The signature of a gate with the given counts.
    pub fn compute_signature(&self, qubits: usize, control: usize, params: usize) -> (r: Signature)
        ensures
            r.inputs@ == spec_qgate_inputs(qubits as nat, control as nat, params as nat),
            r.outputs@ == spec_qgate_outputs(qubits as nat, control as nat),
    {
        let mut inputs = repeated_types(HugrType::Qubit, qubits);
        let mut controls = repeated_types(HugrType::Qubit, control);
        let mut outputs = repeated_types(HugrType::Qubit, qubits);
        let mut out_controls = repeated_types(HugrType::Qubit, control);
        let mut param_types = repeated_types(HugrType::Float64, params);
        inputs.append(&mut controls);
        inputs.append(&mut param_types);
        outputs.append(&mut out_controls);
        Signature { inputs, outputs }
    }
}

/// Computes the signature of the register-creation operation from its qubit
/// count.
#[derive(Clone, Copy, Debug)]
pub struct JeffQuregCreateSignature;

impl JeffQuregCreateSignature {
    /// The signature of a register creation over the given qubit count.
    pub fn compute_signature(&self, qubits: usize) -> (r: Signature)
        ensures
            r.inputs@ == repeated(HugrType::Qubit, qubits as nat),
            r.outputs@ == seq![HugrType::Qureg],
    {
        let inputs = repeated_types(HugrType::Qubit, qubits);
        let mut outputs: Vec<HugrType> = Vec::new();
        outputs.push(HugrType::Qureg);
        proof {
            assert(outputs@ =~= seq![HugrType::Qureg]);
        }
        Signature { inputs, outputs }
    }
}

/// Computes the signature of the integer-array creation operation from its
/// element width and input count.
#[derive(Clone, Copy, Debug)]
pub struct JeffIntArrayCreateSignature;

impl JeffIntArrayCreateSignature {
    /// The signature of an array creation over the given inputs.
    pub fn compute_signature(&self, bits: u8, inputs: usize) -> (r: Signature)
        ensures
            r.inputs@ == repeated(spec_int_t(bits), inputs as nat),
            r.outputs@ == seq![HugrType::IntArray { bits }],
    {
        let int_type = crate::types::jeff_to_hugr(JeffType::Int { bits });
        let input_types = repeated_types(int_type, inputs);
        let mut outputs: Vec<HugrType> = Vec::new();
        outputs.push(HugrType::IntArray { bits });
        proof {
            assert(outputs@ =~= seq![HugrType::IntArray { bits }]);
        }
        Signature { inputs: input_types, outputs }
    }
}

/// Computes the signature of the integer-array read operation from its
/// element width.
#[derive(Clone, Copy, Debug)]
pub struct JeffIntArrayGetSignature;

impl JeffIntArrayGetSignature {
    /// The signature of an indexed read at the given element width.
    pub fn compute_signature(&self, bits: u8) -> (r: Signature)
        ensures
            r.inputs@ == seq![HugrType::IntArray { bits }, spec_int32_t()],
            r.outputs@ == seq![spec_int_t(bits)],
    {
        let int_type = crate::types::jeff_to_hugr(JeffType::Int { bits });
        let mut inputs: Vec<HugrType> = Vec::new();
        inputs.push(HugrType::IntArray { bits });
        inputs.push(HugrType::Int { log_width: 5 });
        let mut outputs: Vec<HugrType> = Vec::new();
        outputs.push(int_type);
        proof {
            assert(inputs@ =~= seq![HugrType::IntArray { bits }, spec_int32_t()]);
            assert(outputs@ =~= seq![spec_int_t(bits)]);
        }
        Signature { inputs, outputs }
    }
}

/// Computes the signature of the integer-array write operation from its
/// element width.
#[derive(Clone, Copy, Debug)]
pub struct JeffIntArraySetSignature;

impl JeffIntArraySetSignature {
    /// The signature of an indexed write at the given element width.
    pub fn compute_signature(&self, bits: u8) -> (r: Signature)
        ensures
            r.inputs@ == seq![HugrType::IntArray { bits }, spec_int32_t(), spec_int_t(bits)],
            r.outputs@ == seq![HugrType::IntArray { bits }],
    {
        let int_type = crate::types::jeff_to_hugr(JeffType::Int { bits });
        let mut inputs: Vec<HugrType> = Vec::new();
        inputs.push(HugrType::IntArray { bits });
        inputs.push(HugrType::Int { log_width: 5 });
        inputs.push(int_type);
        let mut outputs: Vec<HugrType> = Vec::new();
        outputs.push(HugrType::IntArray { bits });
        proof {
            assert(inputs@ =~= seq![HugrType::IntArray { bits }, spec_int32_t(), spec_int_t(bits)]);
            assert(outputs@ =~= seq![HugrType::IntArray { bits }]);
        }
        Signature { inputs, outputs }
    }
}

/// The input types of an extension operation's dataflow signature.
pub open spec fn spec_jeffop_inputs(op: JeffOp) -> Seq<HugrType> {
    match op {
        JeffOp::QGate { qubits, control, params, .. } => spec_qgate_inputs(
            qubits as nat,
            control as nat,
            params as nat,
        ),
        JeffOp::QuregAlloc => seq![spec_int32_t()],
        JeffOp::QuregFree => seq![HugrType::Qureg],
        JeffOp::QuregExtractIndex => seq![HugrType::Qureg, spec_int32_t()],
        JeffOp::QuregInsertIndex => seq![HugrType::Qureg, HugrType::Qubit, spec_int32_t()],
        JeffOp::QuregCreate { qubits } => repeated(HugrType::Qubit, qubits as nat),
        JeffOp::QuregExtractSlice => seq![HugrType::Qureg, spec_int32_t(), spec_int32_t()],
        JeffOp::QuregInsertSlice => seq![HugrType::Qureg, HugrType::Qureg, spec_int32_t()],
        JeffOp::QuregSplit => seq![HugrType::Qureg, spec_int32_t()],
        JeffOp::QuregJoin => seq![HugrType::Qureg, HugrType::Qureg],
        JeffOp::QuregLength => seq![HugrType::Qureg],
        JeffOp::IntArrayCreate { bits, inputs } => repeated(spec_int_t(bits), inputs as nat),
        JeffOp::IntArrayLength { bits } => seq![HugrType::IntArray { bits }],
        JeffOp::IntArrayGet { bits } => seq![HugrType::IntArray { bits }, spec_int32_t()],
        JeffOp::IntArraySet { bits } => seq![
            HugrType::IntArray { bits },
            spec_int32_t(),
            spec_int_t(bits),
        ],
        JeffOp::IntArrayZero { bits } => seq![spec_int32_t()],
    }
}

/// The output types of an extension operation's dataflow signature.
pub open spec fn spec_jeffop_outputs(op: JeffOp) -> Seq<HugrType> {
    match op {
        JeffOp::QGate { qubits, control, .. } => spec_qgate_outputs(qubits as nat, control as nat),
        JeffOp::QuregAlloc => seq![HugrType::Qureg],
        JeffOp::QuregFree => Seq::empty(),
        JeffOp::QuregExtractIndex => seq![HugrType::Qureg, HugrType::Qubit],
        JeffOp::QuregInsertIndex => seq![HugrType::Qureg],
        JeffOp::QuregCreate { .. } => seq![HugrType::Qureg],
        JeffOp::QuregExtractSlice => seq![HugrType::Qureg, HugrType::Qureg],
        JeffOp::QuregInsertSlice => seq![HugrType::Qureg],
        JeffOp::QuregSplit => seq![HugrType::Qureg, HugrType::Qureg],
        JeffOp::QuregJoin => seq![HugrType::Qureg],
        JeffOp::QuregLength => seq![spec_int32_t()],
        JeffOp::IntArrayCreate { bits, .. } => seq![HugrType::IntArray { bits }],
        JeffOp::IntArrayLength { .. } => seq![spec_int32_t()],
        JeffOp::IntArrayGet { bits } => seq![spec_int_t(bits)],
        JeffOp::IntArraySet { bits } => seq![HugrType::IntArray { bits }],
        JeffOp::IntArrayZero { bits } => seq![HugrType::IntArray { bits }],
    }
}

impl JeffOp {
    /// Returns a [`JeffOp::QGate`] for a named quantum gate.
    ///
    /// # Arguments
    ///
    /// * `name` - Its name.
    /// * `n` - The number of qubits.
    /// * `params` - The number of floating point parameters.
    /// * `control` - The number of control qubits (not included in `n`).
    /// * `adjoint` - Whether it is adjoint.
    /// * `power` - How many times to apply it in a row.
    pub fn quantum_gate(
        name: String,
        n: usize,
        params: usize,
        control: usize,
        adjoint: bool,
        power: u64,
    ) -> (r: JeffOp)
        ensures
            r == (JeffOp::QGate { name, qubits: n, params, control, adjoint, power }),
    {
        JeffOp::QGate { name, qubits: n, params, control, adjoint, power }
    }

    /// Returns a [`JeffOp::QGate`] for a source gate operation under the
    /// given name.
    ///
    /// A source gate operation's total qubit count covers its controls, so they
    /// are subtracted to get the base qubit count.
    pub fn jeff_gate_op(name: String, jeff_op: &GateOp) -> (r: JeffOp)
        requires
            jeff_op.control_qubits <= jeff_op.num_qubits,
        ensures
            r == (JeffOp::QGate {
                name,
                qubits: (jeff_op.num_qubits - jeff_op.control_qubits) as usize,
                params: jeff_op.num_params as usize,
                control: jeff_op.control_qubits as usize,
                adjoint: jeff_op.adjoint,
                power: jeff_op.power,
            }),
    {
        let base_qubits = (jeff_op.num_qubits - jeff_op.control_qubits) as usize;
        JeffOp::quantum_gate(
            name,
            base_qubits,
            jeff_op.num_params as usize,
            jeff_op.control_qubits as usize,
            jeff_op.adjoint,
            jeff_op.power,
        )
    }

    /// The non-instantiated operation that `self` instantiates.
    pub open spec fn spec_opdef(self) -> JeffOpDef {
        match self {
            JeffOp::QGate { .. } => JeffOpDef::QGate,
            JeffOp::QuregAlloc => JeffOpDef::QuregAlloc,
            JeffOp::QuregFree => JeffOpDef::QuregFree,
            JeffOp::QuregExtractIndex => JeffOpDef::QuregExtractIndex,
            JeffOp::QuregInsertIndex => JeffOpDef::QuregInsertIndex,
            JeffOp::QuregCreate { .. } => JeffOpDef::QuregCreate,
            JeffOp::QuregExtractSlice => JeffOpDef::QuregExtractSlice,
            JeffOp::QuregInsertSlice => JeffOpDef::QuregInsertSlice,
            JeffOp::QuregSplit => JeffOpDef::QuregSplit,
            JeffOp::QuregJoin => JeffOpDef::QuregJoin,
            JeffOp::QuregLength => JeffOpDef::QuregLength,
            JeffOp::IntArrayCreate { .. } => JeffOpDef::IntArrayCreate,
            JeffOp::IntArrayLength { .. } => JeffOpDef::IntArrayLength,
            JeffOp::IntArrayGet { .. } => JeffOpDef::IntArrayGet,
            JeffOp::IntArraySet { .. } => JeffOpDef::IntArraySet,
            JeffOp::IntArrayZero { .. } => JeffOpDef::IntArrayZero,
        }
    }

    /// Returns the non-instantiated [`JeffOpDef`] for this operation.
    pub fn opdef(&self) -> (r: JeffOpDef)
        ensures
            r == self.spec_opdef(),
    {
        match self {
            JeffOp::QGate { .. } => JeffOpDef::QGate,
            JeffOp::QuregAlloc => JeffOpDef::QuregAlloc,
            JeffOp::QuregFree => JeffOpDef::QuregFree,
            JeffOp::QuregExtractIndex => JeffOpDef::QuregExtractIndex,
            JeffOp::QuregInsertIndex => JeffOpDef::QuregInsertIndex,
            JeffOp::QuregCreate { .. } => JeffOpDef::QuregCreate,
            JeffOp::QuregExtractSlice => JeffOpDef::QuregExtractSlice,
            JeffOp::QuregInsertSlice => JeffOpDef::QuregInsertSlice,
            JeffOp::QuregSplit => JeffOpDef::QuregSplit,
            JeffOp::QuregJoin => JeffOpDef::QuregJoin,
            JeffOp::QuregLength => JeffOpDef::QuregLength,
            JeffOp::IntArrayCreate { .. } => JeffOpDef::IntArrayCreate,
            JeffOp::IntArrayLength { .. } => JeffOpDef::IntArrayLength,
            JeffOp::IntArrayGet { .. } => JeffOpDef::IntArrayGet,
            JeffOp::IntArraySet { .. } => JeffOpDef::IntArraySet,
            JeffOp::IntArrayZero { .. } => JeffOpDef::IntArrayZero,
        }
    }

    /// The dataflow signature of the operation.
    pub fn signature(&self) -> (r: Signature)
        ensures
            r.inputs@ == spec_jeffop_inputs(*self),
            r.outputs@ == spec_jeffop_outputs(*self),
    {
        match self {
            JeffOp::QGate { qubits, control, params, .. } => JeffGateNSignature.compute_signature(
                *qubits,
                *control,
                *params,
            ),
            JeffOp::QuregAlloc => sig_helper_1_1(HugrType::Int { log_width: 5 }, HugrType::Qureg),
            JeffOp::QuregFree => sig_helper_1_0(HugrType::Qureg),
            JeffOp::QuregExtractIndex => sig_helper_2_2(
                HugrType::Qureg,
                HugrType::Int { log_width: 5 },
                HugrType::Qureg,
                HugrType::Qubit,
            ),
            JeffOp::QuregInsertIndex => sig_helper_3_1(
                HugrType::Qureg,
                HugrType::Qubit,
                HugrType::Int { log_width: 5 },
                HugrType::Qureg,
            ),
            JeffOp::QuregCreate { qubits } => JeffQuregCreateSignature.compute_signature(*qubits),
            JeffOp::QuregExtractSlice => sig_helper_3_2(
                HugrType::Qureg,
                HugrType::Int { log_width: 5 },
                HugrType::Int { log_width: 5 },
                HugrType::Qureg,
                HugrType::Qureg,
            ),
            JeffOp::QuregInsertSlice => sig_helper_3_1(
                HugrType::Qureg,
                HugrType::Qureg,
                HugrType::Int { log_width: 5 },
                HugrType::Qureg,
            ),
            JeffOp::QuregSplit => sig_helper_2_2(
                HugrType::Qureg,
                HugrType::Int { log_width: 5 },
                HugrType::Qureg,
                HugrType::Qureg,
            ),
            JeffOp::QuregJoin => sig_helper_2_1(HugrType::Qureg, HugrType::Qureg, HugrType::Qureg),
            JeffOp::QuregLength => sig_helper_1_1(
                HugrType::Qureg,
                HugrType::Int { log_width: 5 },
            ),
            JeffOp::IntArrayCreate { bits, inputs } => JeffIntArrayCreateSignature
                .compute_signature(*bits, *inputs),
            JeffOp::IntArrayLength { bits } => sig_helper_1_1(
                HugrType::IntArray { bits: *bits },
                HugrType::Int { log_width: 5 },
            ),
            JeffOp::IntArrayGet { bits } => JeffIntArrayGetSignature.compute_signature(*bits),
            JeffOp::IntArraySet { bits } => JeffIntArraySetSignature.compute_signature(*bits),
            JeffOp::IntArrayZero { bits } => sig_helper_1_1(
                HugrType::Int { log_width: 5 },
                HugrType::IntArray { bits: *bits },
            ),
        }
    }
}

/// A signature with one input and no outputs.
fn sig_helper_1_0(i0: HugrType) -> (r: Signature)
    ensures
        r.inputs@ == seq![i0],
        r.outputs@ == Seq::<HugrType>::empty(),
{
    let mut inputs: Vec<HugrType> = Vec::new();
    inputs.push(i0);
    let outputs: Vec<HugrType> = Vec::new();
    proof {
        assert(inputs@ =~= seq![i0]);
        assert(outputs@ =~= Seq::<HugrType>::empty());
    }
    Signature { inputs, outputs }
}

/// A signature with one input and one output.
fn sig_helper_1_1(i0: HugrType, o0: HugrType) -> (r: Signature)
    ensures
        r.inputs@ == seq![i0],
        r.outputs@ == seq![o0],
{
    let mut inputs: Vec<HugrType> = Vec::new();
    inputs.push(i0);
    let mut outputs: Vec<HugrType> = Vec::new();
    outputs.push(o0);
    proof {
        assert(inputs@ =~= seq![i0]);
        assert(outputs@ =~= seq![o0]);
    }
    Signature { inputs, outputs }
}

/// A signature with two inputs and one output.
fn sig_helper_2_1(i0: HugrType, i1: HugrType, o0: HugrType) -> (r: Signature)
    ensures
        r.inputs@ == seq![i0, i1],
        r.outputs@ == seq![o0],
{
    let mut inputs: Vec<HugrType> = Vec::new();
    inputs.push(i0);
    inputs.push(i1);
    let mut outputs: Vec<HugrType> = Vec::new();
    outputs.push(o0);
    proof {
        assert(inputs@ =~= seq![i0, i1]);
        assert(outputs@ =~= seq![o0]);
    }
    Signature { inputs, outputs }
}

/// A signature with two inputs and two outputs.
fn sig_helper_2_2(i0: HugrType, i1: HugrType, o0: HugrType, o1: HugrType) -> (r: Signature)
    ensures
        r.inputs@ == seq![i0, i1],
        r.outputs@ == seq![o0, o1],
{
    let mut inputs: Vec<HugrType> = Vec::new();
    inputs.push(i0);
    inputs.push(i1);
    let mut outputs: Vec<HugrType> = Vec::new();
    outputs.push(o0);
    outputs.push(o1);
    proof {
        assert(inputs@ =~= seq![i0, i1]);
        assert(outputs@ =~= seq![o0, o1]);
    }
    Signature { inputs, outputs }
}

/// A signature with three inputs and one output.
fn sig_helper_3_1(i0: HugrType, i1: HugrType, i2: HugrType, o0: HugrType) -> (r: Signature)
    ensures
        r.inputs@ == seq![i0, i1, i2],
        r.outputs@ == seq![o0],
{
    let mut inputs: Vec<HugrType> = Vec::new();
    inputs.push(i0);
    inputs.push(i1);
    inputs.push(i2);
    let mut outputs: Vec<HugrType> = Vec::new();
    outputs.push(o0);
    proof {
        assert(inputs@ =~= seq![i0, i1, i2]);
        assert(outputs@ =~= seq![o0]);
    }
    Signature { inputs, outputs }
}

/// A signature with three inputs and two outputs.
fn sig_helper_3_2(i0: HugrType, i1: HugrType, i2: HugrType, o0: HugrType, o1: HugrType) -> (r:
    Signature)
    ensures
        r.inputs@ == seq![i0, i1, i2],
        r.outputs@ == seq![o0, o1],
{
    let mut inputs: Vec<HugrType> = Vec::new();
    inputs.push(i0);
    inputs.push(i1);
    inputs.push(i2);
    let mut outputs: Vec<HugrType> = Vec::new();
    outputs.push(o0);
    outputs.push(o1);
    proof {
        assert(inputs@ =~= seq![i0, i1, i2]);
        assert(outputs@ =~= seq![o0, o1]);
    }
    Signature { inputs, outputs }
}

/// A constant integer-array value, tagged with its element bit width.
#[derive(Clone, Debug, PartialEq, Eq)]
pub struct ConstIntReg {
    /// The bitwidth of the integers in the array.
    bits: u8,
    /// The values, stored as u64s.
    values: Vec<u64>,
}

impl ConstIntReg {
    /// The element bit width.
    pub closed spec fn spec_bits(self) -> u8 {
        self.bits
    }

    /// The element values.
    pub closed spec fn spec_values(self) -> Seq<u64> {
        self.values@
    }

    /// Create a new [`ConstIntReg`].
    pub fn new(values: Vec<u64>, bits: u8) -> (r: Self)
        ensures
            r.spec_bits() == bits,
            r.spec_values() == values@,
    {
        Self { bits, values }
    }

    /// Returns the values of the constant.
    pub fn values(&self) -> (r: &Vec<u64>)
        ensures
            r@ == self.spec_values(),
    {
        &self.values
    }

    /// Returns the bitwidth of the constant.
    pub fn bits(&self) -> (r: u8)
        ensures
            r == self.spec_bits(),
    {
        self.bits
    }
}

} // verus!
