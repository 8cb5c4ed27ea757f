//! Model of the source IR: a module of functions whose bodies are regions of
//! typed operations over hyperedge values.
//!
//! Values are hyperedges: each has exactly one logical producer and any
//! number of consumers. Identifiers are stable within the function that owns
//! them; nested regions (control-flow bodies and branches) draw their value
//! identifiers from the same space, so a reference can cross region
//! boundaries and is wired up by the enclosing region's resolution pass.

use vstd::prelude::*;

verus! {

/// Identifier of a hyperedge value.
pub type ValueId = u32;

/// Index into the module's function table.
pub type FunctionId = u32;

/// Bit widths of floating-point values distinguished by the source IR.
#[derive(Clone, Copy, Debug, PartialEq, Eq, Structural)]
pub enum FloatPrecision {
    /// 32-bit floating point.
    Float32,
    /// 64-bit floating point.
    Float64,
}

/// A type in the source IR.
#[derive(Clone, Copy, Debug, PartialEq, Eq, Structural)]
pub enum JeffType {
    /// A single qubit.
    Qubit,
    /// An integer with an arbitrary bit width.
    Int {
        /// The bit width.
        bits: u8,
    },
    /// A floating-point number.
    Float {
        /// The precision of the number.
        precision: FloatPrecision,
    },
    /// An opaque register of qubits.
    QubitRegister,
    /// An array of integers of one bit width.
    IntArray {
        /// The bit width of each element.
        bits: u8,
    },
    /// An array of floating-point numbers of one precision.
    FloatArray {
        /// The precision of each element.
        precision: FloatPrecision,
    },
}

/// One operand or result of an operation: a value identifier together with
/// the declared type of the value.
#[derive(Clone, Debug)]
pub struct ValuePort {
    /// The hyperedge value.
    pub id: ValueId,
    /// The declared type of the value.
    pub ty: JeffType,
}

/// A region: an ordered dataflow scope with explicit boundary value lists.
pub struct Region {
    /// Values flowing into the region, in order.
    pub sources: Vec<ValuePort>,
    /// Values flowing out of the region, in order.
    pub targets: Vec<ValuePort>,
    /// The region's operations, in order.
    pub operations: Vec<Operation>,
}

/// An operation: a tagged variant with typed, ordered inputs and outputs.
pub struct Operation {
    /// The operation's variant.
    pub optype: OpType,
    /// The operation's inputs, in declaration order.
    pub inputs: Vec<ValuePort>,
    /// The operation's outputs, in declaration order.
    pub outputs: Vec<ValuePort>,
}

/// The categories of source operations.
pub enum OpType {
    /// Floating-point operations.
    FloatOp(FloatOp),
    /// A static function call.
    FuncOp(FuncOp),
    /// Integer operations.
    IntOp(IntOp),
    /// Integer-array operations.
    IntArrayOp(IntArrayOp),
    /// Qubit operations.
    QubitOp(QubitOp),
    /// Qubit-register operations.
    QubitRegisterOp(QubitRegisterOp),
    /// Structured control flow.
    ControlFlowOp(ControlFlowOp),
    /// An operation category unknown to this vocabulary.
    Unknown,
}

/// Floating-point operations.
///
/// Constants carry the raw bit pattern of the (64-bit) value, so that the
/// translation itself never manipulates floating-point arithmetic; a 32-bit
/// source constant is widened losslessly to 64 bits before it reaches the
/// translator.
#[derive(Clone, Debug)]
pub enum FloatOp {
    /// A 32-bit constant, widened to 64 bits and stored as raw bits.
    Const32 {
        /// The IEEE-754 64-bit pattern of the widened value.
        bits: u64,
    },
    /// A 64-bit constant, stored as raw bits.
    Const64 {
        /// The IEEE-754 64-bit pattern of the value.
        bits: u64,
    },
    /// Addition.
    Add,
    /// Subtraction.
    Sub,
    /// Multiplication.
    Mul,
    /// Exponentiation.
    Pow,
    /// Equality comparison.
    Eq,
    /// Less-than comparison.
    Lt,
    /// Less-than-or-equal comparison.
    Lte,
    /// Absolute value.
    Abs,
    /// Round up.
    Ceil,
    /// Round down.
    Floor,
    /// Natural exponential.
    Exp,
    /// Maximum of two values.
    Max,
    /// Minimum of two values.
    Min,
    /// Square root.
    Sqrt,
    /// NaN test.
    IsNan,
    /// Infinity test.
    IsInf,
    /// Natural logarithm.
    Log,
    /// Sine.
    Sin,
    /// Cosine.
    Cos,
    /// Tangent.
    Tan,
    /// Arcsine.
    Asin,
    /// Arccosine.
    Acos,
    /// Arctangent.
    Atan,
    /// Two-argument arctangent.
    Atan2,
    /// Hyperbolic sine.
    Sinh,
    /// Hyperbolic cosine.
    Cosh,
    /// Hyperbolic tangent.
    Tanh,
    /// Inverse hyperbolic sine.
    Asinh,
    /// Inverse hyperbolic cosine.
    Acosh,
    /// Inverse hyperbolic tangent.
    Atanh,
}

/// A static call to a function of the module's table.
#[derive(Clone, Debug)]
pub struct FuncOp {
    /// The called function's index in the module's table.
    pub func_idx: FunctionId,
}

/// Integer operations.
#[derive(Clone, Debug)]
pub enum IntOp {
    /// A 1-bit (boolean) constant.
    Const1(bool),
    /// An 8-bit constant.
    Const8(u8),
    /// A 16-bit constant.
    Const16(u16),
    /// A 32-bit constant.
    Const32(u32),
    /// A 64-bit constant.
    Const64(u64),
    /// Any other integer operation of the source vocabulary.
    Other,
}

/// Integer-array operations.
#[derive(Clone, Debug)]
#[allow(inconsistent_fields)]
pub enum IntArrayOp {
    /// Build an array from its integer inputs.
    Create,
    /// Read the element at an index.
    GetIndex,
    /// Replace the element at an index.
    SetIndex,
    /// Build a zeroed array of a dynamic length.
    Zero {
        /// The bit width of each element.
        bits: u8,
    },
    /// A constant array of 8-bit elements.
    ConstArray8 {
        /// The element values.
        values: Vec<u8>,
    },
    /// A constant array of 16-bit elements.
    ConstArray16 {
        /// The element values.
        values: Vec<u16>,
    },
    /// A constant array of 32-bit elements.
    ConstArray32 {
        /// The element values.
        values: Vec<u32>,
    },
    /// A constant array of 64-bit elements.
    ConstArray64 {
        /// The element values.
        values: Vec<u64>,
    },
    /// Any other integer-array operation of the source vocabulary.
    Other,
}

/// Qubit operations.
#[derive(Clone, Debug)]
pub enum QubitOp {
    /// Allocate a fresh qubit.
    Alloc,
    /// Free a qubit.
    Free,
    /// Free a qubit known to be in the zero state.
    FreeZero,
    /// Measure a qubit, consuming it.
    Measure,
    /// Measure a qubit without consuming it.
    MeasureNd,
    /// Reset a qubit to the zero state.
    Reset,
    /// Apply a quantum gate.
    Gate(GateOp),
    /// Any other qubit operation of the source vocabulary.
    Other,
}

/// Qubit-register operations.
#[derive(Clone, Debug)]
pub enum QubitRegisterOp {
    /// Allocate a register of a dynamic size.
    Alloc,
    /// Free a register.
    Free,
    /// Free a register whose qubits are known to be in the zero state.
    FreeZero,
    /// Extract the qubit at an index.
    ExtractIndex,
    /// Insert a qubit at an index.
    InsertIndex,
    /// Extract a slice of qubits.
    ExtractSlice,
    /// Insert a slice of qubits at an index.
    InsertSlice,
    /// The number of qubits in a register.
    Length,
    /// Split a register in two.
    Split,
    /// Join two registers.
    Join,
    /// Build a register from its qubit inputs.
    Create,
    /// Any other qubit-register operation of the source vocabulary.
    Other,
}

/// A quantum gate application, with its modifiers.
#[derive(Clone, Debug)]
pub struct GateOp {
    /// Which gate is applied.
    pub gate_type: GateOpType,
    /// Whether the adjoint form is applied.
    pub adjoint: bool,
    /// The number of control qubits.
    pub control_qubits: u32,
    /// How many times in a row this application repeats.
    pub power: u64,
    /// The total number of qubits acted on, controls included.
    pub num_qubits: u32,
    /// The number of floating-point parameters.
    pub num_params: u32,
}

/// The kinds of gate named by a gate operation.
#[derive(Clone, Debug)]
pub enum GateOpType {
    /// A gate of the well-known vocabulary.
    WellKnown(WellKnownGate),
    /// A rotation generated by a product of Pauli operators.
    PauliProdRotation {
        /// The Pauli string naming the generator.
        pauli_string: String,
    },
    /// A gate named outside the well-known vocabulary.
    Custom {
        /// Its name.
        name: String,
    },
}

/// The well-known gate vocabulary of the source IR.
#[derive(Clone, Copy, Debug, PartialEq, Eq, Structural)]
pub enum WellKnownGate {
    /// Identity.
    I,
    /// Hadamard.
    H,
    /// Pauli X.
    X,
    /// Pauli Y.
    Y,
    /// Pauli Z.
    Z,
    /// Quarter turn about Z.
    S,
    /// Eighth turn about Z.
    T,
    /// Parametric rotation about X.
    Rx,
    /// Parametric rotation about Y.
    Ry,
    /// Parametric rotation about Z.
    Rz,
    /// Exchange of two qubits.
    Swap,
}

/// Structured control flow, with nested regions.
pub enum ControlFlowOp {
    /// A multi-way branch on an integer discriminant.
    Switch(SwitchOp),
    /// A loop that runs its body, then tests a condition on the new state.
    DoWhile {
        /// The loop body; state in, state out.
        body: Region,
        /// The condition; state in, continue flag out.
        condition: Region,
    },
    /// A loop that tests a condition on the current state before each run of
    /// the body.
    While {
        /// The loop body; state in, state out.
        body: Region,
        /// The condition; state in, continue flag out.
        condition: Region,
    },
    /// A bounded counting loop over (start, stop, step) and carried state.
    For {
        /// The loop body; counter and state in, state out.
        region: Region,
    },
}

/// A multi-way branch: explicit branches plus an optional default.
pub struct SwitchOp {
    /// The explicit branches, in discriminant order.
    pub branches: Vec<Region>,
    /// The branch taken for discriminants past the explicit ones.
    pub default_branch: Option<Region>,
}

/// A function of the module: a definition with a body, or a declaration with
/// a signature only.
pub enum Function {
    /// A function with a body region.
    Definition {
        /// The function's name.
        name: String,
        /// The input types.
        inputs: Vec<JeffType>,
        /// The output types.
        outputs: Vec<JeffType>,
        /// The body region.
        body: Region,
    },
    /// A function known by signature only.
    Declaration {
        /// The function's name.
        name: String,
        /// The input types.
        inputs: Vec<JeffType>,
        /// The output types.
        outputs: Vec<JeffType>,
    },
}

/// A module: an ordered function table. Functions may call later entries of
/// the table (forward references).
pub struct Module {
    /// The function table.
    pub functions: Vec<Function>,
}

impl Operation {
    /// The declared types of the operation's inputs, in order.
    pub open spec fn input_types(&self) -> Seq<JeffType> {
        self.inputs@.map_values(|p: ValuePort| p.ty)
    }

    /// The declared types of the operation's outputs, in order.
    pub open spec fn output_types(&self) -> Seq<JeffType> {
        self.outputs@.map_values(|p: ValuePort| p.ty)
    }
}

} // verus!
