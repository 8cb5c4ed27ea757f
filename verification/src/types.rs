//! Translation between the source and target type universes.
//!
//! Integer widths are extended to the next power of 2, as the target only
//! supports widths of the form 2^n. Scalar floats are always widened to
//! 64 bits, while float arrays keep their precision as a parameter - a
//! deliberate asymmetry of the mapping.

use vstd::prelude::*;
use crate::jeff_ir::{FloatPrecision, JeffType};
use crate::to_jeff::HugrToJeffError;

verus! {

/// A type of the target IR, as far as the translation distinguishes them.
#[derive(Clone, Copy, Debug, PartialEq, Eq, Structural)]
pub enum HugrType {
    /// The native qubit type.
    Qubit,
    /// The native boolean (unit-sum) type.
    Bool,
    /// An integer type; the width is 2^log_width bits.
    Int {
        /// Base-two logarithm of the bit width.
        log_width: u8,
    },
    /// The 64-bit float scalar type.
    Float64,
    /// The extension's opaque, non-duplicable qubit-register type.
    Qureg,
    /// The extension's integer-array type, parameterized by element width.
    IntArray {
        /// The bit width of each element.
        bits: u8,
    },
    /// The extension's float-array type, parameterized by element precision.
    FloatArray {
        /// The precision of each element.
        precision: FloatPrecision,
    },
    /// The half-turn rotation type taken by parametric gates.
    Rotation,
    /// The control sum produced at a tail loop's output boundary; its rows
    /// are determined by the enclosing loop node.
    TailControl,
}

/// A dataflow signature of the target IR: ordered input and output types.
#[derive(Clone, Debug, PartialEq, Eq)]
pub struct Signature {
    /// The input types, in port order.
    pub inputs: Vec<HugrType>,
    /// The output types, in port order.
    pub outputs: Vec<HugrType>,
}

/// 2^e.
pub open spec fn pow2(e: nat) -> nat
    decreases e,
{
    if e == 0 {
        1
    } else {
        2 * pow2((e - 1) as nat)
    }
}

/// The least `l` with `pow2(l) >= b` (0 for `b <= 1`).
pub open spec fn log2_ceil(b: nat) -> nat
    decreases b,
{
    if b <= 1 {
        0
    } else {
        1 + log2_ceil(((b + 1) / 2) as nat)
    }
}

/// `pow2` is at least 1.
pub proof fn lemma_pow2_pos(e: nat)
    ensures
        pow2(e) >= 1,
    decreases e,
{
    if e > 0 {
        lemma_pow2_pos((e - 1) as nat);
    }
}

/// `log2_ceil(b)` is characterized by `pow2(l) >= b` together with the
/// minimality witness `pow2(l - 1) < b`.
pub proof fn lemma_log2_ceil_char(b: nat, l: nat)
    requires
        b >= 1,
        pow2(l) >= b,
        l == 0 || pow2((l - 1) as nat) < b,
    ensures
        log2_ceil(b) == l,
    decreases b,
{
    if b == 1 {
        if l > 0 {
            lemma_pow2_pos((l - 1) as nat);
        }
    } else {
        if l == 0 {
            assert(pow2(0) == 1);
        }
        let b2 = ((b + 1) / 2) as nat;
        let l2 = (l - 1) as nat;
        assert(pow2(l) == 2 * pow2(l2));
        assert(pow2(l2) >= b2);
        if l2 > 0 {
            assert(pow2(l2) == 2 * pow2((l2 - 1) as nat));
            assert(pow2((l2 - 1) as nat) < b2);
        } else {
            assert(pow2(0) == 1);
            assert(b2 >= 1);
        }
        lemma_log2_ceil_char(b2, l2);
    }
}

/// The bounds that characterize `log2_ceil`.
pub proof fn lemma_log2_ceil_bounds(b: nat)
    requires
        b >= 1,
    ensures
        pow2(log2_ceil(b)) >= b,
        log2_ceil(b) == 0 || pow2((log2_ceil(b) - 1) as nat) < b,
    decreases b,
{
    if b > 1 {
        let b2 = ((b + 1) / 2) as nat;
        lemma_log2_ceil_bounds(b2);
        let l2 = log2_ceil(b2);
        assert(pow2(l2 + 1) == 2 * pow2(l2));
        if l2 > 0 {
            assert(pow2(l2) == 2 * pow2((l2 - 1) as nat));
        }
    }
}

/// The least power of two at least `b`.
pub open spec fn next_pow2(b: nat) -> nat {
    pow2(log2_ceil(b))
}

/// The base-two logarithm of the least power of two at least `bits`,
/// executable form.
///
/// This is the width argument carried by the target's integer types.
pub fn jeff_int_width_to_hugr_width(bits: u8) -> (r: u8)
    requires
        bits >= 1,
    ensures
        r == log2_ceil(bits as nat),
        r <= 8,
{
    let r: u8 = if bits <= 1 {
        0
    } else if bits <= 2 {
        1
    } else if bits <= 4 {
        2
    } else if bits <= 8 {
        3
    } else if bits <= 16 {
        4
    } else if bits <= 32 {
        5
    } else if bits <= 64 {
        6
    } else if bits <= 128 {
        7
    } else {
        8
    };
    proof {
        reveal_with_fuel(pow2, 10);
        lemma_log2_ceil_char(bits as nat, r as nat);
    }
    r
}

/// What `jeff_to_hugr` returns, as a specification.
pub open spec fn spec_jeff_to_hugr(t: JeffType) -> HugrType {
    match t {
        JeffType::Qubit => HugrType::Qubit,
        JeffType::Int { bits } => if bits == 1 {
            HugrType::Bool
        } else {
            HugrType::Int { log_width: log2_ceil(bits as nat) as u8 }
        },
        JeffType::Float { precision } => HugrType::Float64,
        JeffType::QubitRegister => HugrType::Qureg,
        JeffType::IntArray { bits } => HugrType::IntArray { bits },
        JeffType::FloatArray { precision } => HugrType::FloatArray { precision },
    }
}

/// Translate a source type to a target type.
///
/// Integer widths are extended to the next power of 2; a 1-bit integer maps
/// to the native boolean. Floats map to the 64-bit scalar regardless of
/// declared precision; float arrays keep their precision.
///
/// A zero-width integer is treated as 1-bit (`log2_ceil(0) == 0`), matching
/// the specification's width normalization.
pub fn jeff_to_hugr(jeff_type: JeffType) -> (r: HugrType)
    ensures
        r == spec_jeff_to_hugr(jeff_type),
{
    match jeff_type {
        JeffType::Qubit => HugrType::Qubit,
        JeffType::Int { bits } => {
            if bits == 1 {
                return HugrType::Bool;
            }
            if bits == 0 {
                return HugrType::Int { log_width: 0 };
            }
            let log_width = jeff_int_width_to_hugr_width(bits);
            HugrType::Int { log_width }
        },
        JeffType::Float { .. } => HugrType::Float64,
        JeffType::QubitRegister => HugrType::Qureg,
        JeffType::IntArray { bits } => HugrType::IntArray { bits },
        JeffType::FloatArray { precision } => HugrType::FloatArray { precision },
    }
}

/// What `hugr_to_jeff` returns, as a specification.
pub open spec fn spec_hugr_to_jeff(t: HugrType) -> Result<JeffType, HugrToJeffError> {
    match t {
        HugrType::Qubit => Ok(JeffType::Qubit),
        HugrType::Bool => Ok(JeffType::Int { bits: 1 }),
        HugrType::Int { log_width } => if log_width <= 7 {
            Ok(JeffType::Int { bits: pow2(log_width as nat) as u8 })
        } else {
            Err(HugrToJeffError::UnsupportedType { hugr_type: t })
        },
        HugrType::Float64 => Ok(JeffType::Float { precision: FloatPrecision::Float64 }),
        HugrType::Qureg => Ok(JeffType::QubitRegister),
        HugrType::IntArray { bits } => Ok(JeffType::IntArray { bits }),
        HugrType::FloatArray { precision } => Ok(JeffType::FloatArray { precision }),
        HugrType::Rotation => Err(HugrToJeffError::UnsupportedType { hugr_type: t }),
        HugrType::TailControl => Err(HugrToJeffError::UnsupportedType { hugr_type: t }),
    }
}

/// Translate a target type back to a source type.
///
/// The mapping is partial: it fails with
/// [`HugrToJeffError::UnsupportedType`] on the rotation type and on integer
/// widths past the source's 8-bit width field.
pub fn hugr_to_jeff(hugr_type: &HugrType) -> (r: Result<JeffType, HugrToJeffError>)
    ensures
        r == spec_hugr_to_jeff(*hugr_type),
{
    match *hugr_type {
        HugrType::Qubit => Ok(JeffType::Qubit),
        HugrType::Bool => Ok(JeffType::Int { bits: 1 }),
        HugrType::Int { log_width } => {
            if log_width <= 7 {
                let bits: u8 = 1u8 << log_width;
                proof {
                    lemma_shift_is_pow2(log_width);
                }
                Ok(JeffType::Int { bits })
            } else {
                Err(HugrToJeffError::UnsupportedType { hugr_type: *hugr_type })
            }
        },
        HugrType::Float64 => Ok(JeffType::Float { precision: FloatPrecision::Float64 }),
        HugrType::Qureg => Ok(JeffType::QubitRegister),
        HugrType::IntArray { bits } => Ok(JeffType::IntArray { bits }),
        HugrType::FloatArray { precision } => Ok(JeffType::FloatArray { precision }),
        HugrType::Rotation => Err(HugrToJeffError::UnsupportedType { hugr_type: *hugr_type }),
        HugrType::TailControl => Err(
            HugrToJeffError::UnsupportedType { hugr_type: *hugr_type },
        ),
    }
}

/// A left shift of 1 by up to 7 places equals the matching power of two.
proof fn lemma_shift_is_pow2(e: u8)
    requires
        e <= 7,
    ensures
        (1u8 << e) == pow2(e as nat),
{
    assert((1u8 << 0) == 1 && (1u8 << 1) == 2 && (1u8 << 2) == 4 && (1u8 << 3) == 8 && (1u8 << 4)
        == 16 && (1u8 << 5) == 32 && (1u8 << 6) == 64 && (1u8 << 7) == 128) by (bit_vector);
    reveal_with_fuel(pow2, 9);
}

/// Map a list of source types to target types.
pub fn jeff_types_to_hugr(types: &Vec<JeffType>) -> (r: Vec<HugrType>)
    ensures
        r@ == types@.map_values(|t: JeffType| spec_jeff_to_hugr(t)),
{
    let mut out: Vec<HugrType> = Vec::new();
    let ghost goal = types@.map_values(|t: JeffType| spec_jeff_to_hugr(t));
    for i in 0..types.len()
        invariant
            out@ == goal.take(i as int),
            goal == types@.map_values(|t: JeffType| spec_jeff_to_hugr(t)),
            goal.len() == types@.len(),
    {
        out.push(jeff_to_hugr(types[i]));
        proof {
            assert(goal[i as int] == spec_jeff_to_hugr(types@[i as int]));
            assert(out@ =~= goal.take(i as int + 1));
        }
    }
    proof {
        assert(out@ =~= goal);
    }
    out
}

/// Translate a source signature into a target signature.
pub fn jeff_signature_to_hugr(inputs: &Vec<JeffType>, outputs: &Vec<JeffType>) -> (r: Signature)
    ensures
        r.inputs@ == inputs@.map_values(|t: JeffType| spec_jeff_to_hugr(t)),
        r.outputs@ == outputs@.map_values(|t: JeffType| spec_jeff_to_hugr(t)),
{
    Signature { inputs: jeff_types_to_hugr(inputs), outputs: jeff_types_to_hugr(outputs) }
}

/// Translate a target signature back into source input and output types.
///
/// Fails with [`HugrToJeffError::UnsupportedType`] as soon as one type of
/// the signature has no source equivalent; the error names the first such
/// type in input-then-output port order.
pub fn hugr_signature_to_jeff(hugr_signature: &Signature) -> (r: Result<
    (Vec<JeffType>, Vec<JeffType>),
    HugrToJeffError,
>)
    ensures
        r is Ok <==> (forall|i: int|
            0 <= i < hugr_signature.inputs@.len() ==> spec_hugr_to_jeff(
                hugr_signature.inputs@[i],
            ) is Ok) && (forall|i: int|
            0 <= i < hugr_signature.outputs@.len() ==> spec_hugr_to_jeff(
                hugr_signature.outputs@[i],
            ) is Ok),
        r matches Ok((ins, outs)) ==> ins@ == hugr_signature.inputs@.map_values(
            |t: HugrType| spec_hugr_to_jeff_ok(t),
        ) && outs@ == hugr_signature.outputs@.map_values(
            |t: HugrType| spec_hugr_to_jeff_ok(t),
        ),
        r matches Err(e) ==> ((exists|i: int|
            #![trigger hugr_signature.inputs@[i]]
            0 <= i < hugr_signature.inputs@.len() && spec_hugr_to_jeff(hugr_signature.inputs@[i])
                == Err::<JeffType, HugrToJeffError>(e) && (forall|j: int|
                0 <= j < i ==> spec_hugr_to_jeff(hugr_signature.inputs@[j]) is Ok)) || ((forall|
            j: int,
        |
            0 <= j < hugr_signature.inputs@.len() ==> spec_hugr_to_jeff(
                hugr_signature.inputs@[j],
            ) is Ok) && (exists|i: int|
            #![trigger hugr_signature.outputs@[i]]
            0 <= i < hugr_signature.outputs@.len() && spec_hugr_to_jeff(
                hugr_signature.outputs@[i],
            ) == Err::<JeffType, HugrToJeffError>(e) && (forall|j: int|
                0 <= j < i ==> spec_hugr_to_jeff(hugr_signature.outputs@[j]) is Ok)))),
{
    let ins = hugr_types_to_jeff(&hugr_signature.inputs);
    let ins = match ins {
        Ok(v) => v,
        Err(e) => {
            return Err(e);
        },
    };
    let outs = hugr_types_to_jeff(&hugr_signature.outputs);
    let outs = match outs {
        Ok(v) => v,
        Err(e) => {
            return Err(e);
        },
    };
    Ok((ins, outs))
}

/// The source type that a convertible target type maps back to.
pub open spec fn spec_hugr_to_jeff_ok(t: HugrType) -> JeffType {
    spec_hugr_to_jeff(t)->Ok_0
}

/// Map a list of target types back to source types, failing on the first
/// one without a source equivalent.
pub fn hugr_types_to_jeff(types: &Vec<HugrType>) -> (r: Result<Vec<JeffType>, HugrToJeffError>)
    ensures
        r is Ok <==> (forall|i: int|
            0 <= i < types@.len() ==> spec_hugr_to_jeff(types@[i]) is Ok),
        r matches Ok(v) ==> v@ == types@.map_values(|t: HugrType| spec_hugr_to_jeff_ok(t)),
        r matches Err(e) ==> exists|i: int|
            #![trigger types@[i]]
            0 <= i < types@.len() && spec_hugr_to_jeff(types@[i]) == Err::<
                JeffType,
                HugrToJeffError,
            >(e) && (forall|j: int| 0 <= j < i ==> spec_hugr_to_jeff(types@[j]) is Ok),
{
    let mut out: Vec<JeffType> = Vec::new();
    let ghost goal = types@.map_values(|t: HugrType| spec_hugr_to_jeff_ok(t));
    for i in 0..types.len()
        invariant
            out@ == goal.take(i as int),
            goal == types@.map_values(|t: HugrType| spec_hugr_to_jeff_ok(t)),
            goal.len() == types@.len(),
            forall|j: int| 0 <= j < i ==> spec_hugr_to_jeff(types@[j]) is Ok,
    {
        match hugr_to_jeff(&types[i]) {
            Ok(t) => {
                out.push(t);
                proof {
                    assert(goal[i as int] == spec_hugr_to_jeff_ok(types@[i as int]));
                    assert(out@ =~= goal.take(i as int + 1));
                }
            },
            Err(e) => {
                return Err(e);
            },
        }
    }
    proof {
        assert(out@ =~= goal);
    }
    Ok(out)
}

/// The source-to-target-to-source round trip on integer types: exact for
/// width 1 and for widths that are powers of two up to 128; any other width
/// from 2 to 128 comes back as the next power of two, not itself.
///
/// Widths past 128 round up to 256, which the source's 8-bit width field
/// cannot hold, so the round trip fails there instead.
pub proof fn lemma_int_round_trip(bits: u8)
    requires
        1 <= bits <= 128,
    ensures
        spec_hugr_to_jeff(spec_jeff_to_hugr(JeffType::Int { bits })) == Ok::<
            JeffType,
            HugrToJeffError,
        >(JeffType::Int { bits: next_pow2(bits as nat) as u8 }),
        next_pow2(bits as nat) >= bits,
        (exists|e: nat| bits == pow2(e)) ==> next_pow2(bits as nat) == bits,
{
    if bits == 1 {
        assert(pow2(0) == 1);
        assert(log2_ceil(1) == 0);
    } else {
        lemma_log2_ceil_bounds(bits as nat);
        let l = log2_ceil(bits as nat);
        reveal_with_fuel(pow2, 10);
        if l > 8 {
            lemma_pow2_mono(8, (l - 1) as nat);
            assert(pow2((l - 1) as nat) >= 256);
        }
        if l == 8 {
            assert(pow2(7) == 128);
        }
        assert(l <= 7);
        lemma_pow2_mono(l, 7);
        assert(spec_jeff_to_hugr(JeffType::Int { bits }) == (HugrType::Int { log_width: l as u8 }));
    }
    if exists|e: nat| bits == pow2(e) {
        let e = choose|e: nat| bits == pow2(e);
        lemma_log2_ceil_char(bits as nat, e);
    }
}

/// `pow2` is monotone.
pub proof fn lemma_pow2_mono(a: nat, b: nat)
    requires
        a <= b,
    ensures
        pow2(a) <= pow2(b),
    decreases b,
{
    if a < b {
        lemma_pow2_mono(a, (b - 1) as nat);
        lemma_pow2_pos((b - 1) as nat);
    }
}

} // verus!
