//! Tests for the type mapping between the two IRs.

use hugr_jeff::jeff_ir::{FloatPrecision, JeffType};
use hugr_jeff::to_jeff::HugrToJeffError;
use hugr_jeff::types::{
    hugr_signature_to_jeff, hugr_to_jeff, jeff_signature_to_hugr, jeff_to_hugr, HugrType,
};

fn roundtrip(initial: JeffType) -> JeffType {
    let hugr_type = jeff_to_hugr(initial);
    hugr_to_jeff(&hugr_type).unwrap()
}

#[test]
fn roundtrip_qubit() {
    assert_eq!(roundtrip(JeffType::Qubit), JeffType::Qubit);
}

#[test]
fn roundtrip_qureg() {
    assert_eq!(roundtrip(JeffType::QubitRegister), JeffType::QubitRegister);
}

#[test]
fn roundtrip_bit() {
    assert_eq!(roundtrip(JeffType::Int { bits: 1 }), JeffType::Int { bits: 1 });
}

#[test]
fn roundtrip_int8() {
    assert_eq!(roundtrip(JeffType::Int { bits: 8 }), JeffType::Int { bits: 8 });
}

#[test]
fn roundtrip_int7_widens() {
    // a non-power-of-two width comes back as the next power of two
    assert_eq!(roundtrip(JeffType::Int { bits: 7 }), JeffType::Int { bits: 8 });
}

#[test]
fn roundtrip_int33_widens() {
    assert_eq!(roundtrip(JeffType::Int { bits: 33 }), JeffType::Int { bits: 64 });
}

#[test]
fn roundtrip_powers_of_two_exact() {
    for bits in [2u8, 4, 16, 32, 64, 128] {
        assert_eq!(roundtrip(JeffType::Int { bits }), JeffType::Int { bits });
    }
}

#[test]
fn roundtrip_f32_widens() {
    assert_eq!(
        roundtrip(JeffType::Float { precision: FloatPrecision::Float32 }),
        JeffType::Float { precision: FloatPrecision::Float64 },
    );
}

#[test]
fn roundtrip_f64() {
    assert_eq!(
        roundtrip(JeffType::Float { precision: FloatPrecision::Float64 }),
        JeffType::Float { precision: FloatPrecision::Float64 },
    );
}

#[test]
fn roundtrip_arrays_keep_parameters() {
    assert_eq!(
        roundtrip(JeffType::IntArray { bits: 7 }),
        JeffType::IntArray { bits: 7 },
    );
    assert_eq!(
        roundtrip(JeffType::IntArray { bits: 8 }),
        JeffType::IntArray { bits: 8 },
    );
    assert_eq!(
        roundtrip(JeffType::FloatArray { precision: FloatPrecision::Float32 }),
        JeffType::FloatArray { precision: FloatPrecision::Float32 },
    );
    assert_eq!(
        roundtrip(JeffType::FloatArray { precision: FloatPrecision::Float64 }),
        JeffType::FloatArray { precision: FloatPrecision::Float64 },
    );
}

#[test]
fn rotation_type_has_no_source_equivalent() {
    let r = hugr_to_jeff(&HugrType::Rotation);
    assert_eq!(
        r,
        Err(HugrToJeffError::UnsupportedType { hugr_type: HugrType::Rotation }),
    );
}

#[test]
fn wide_int_has_no_source_equivalent() {
    let r = hugr_to_jeff(&HugrType::Int { log_width: 8 });
    assert!(matches!(r, Err(HugrToJeffError::UnsupportedType { .. })));
}

#[test]
fn signature_roundtrip() {
    let inputs = vec![
        JeffType::Qubit,
        JeffType::Int { bits: 8 },
        JeffType::Float { precision: FloatPrecision::Float64 },
    ];
    let outputs = vec![
        JeffType::QubitRegister,
        JeffType::IntArray { bits: 8 },
        JeffType::FloatArray { precision: FloatPrecision::Float64 },
    ];
    let hugr_signature = jeff_signature_to_hugr(&inputs, &outputs);
    let (roundtripped_inputs, roundtripped_outputs) =
        hugr_signature_to_jeff(&hugr_signature).unwrap();
    assert_eq!(roundtripped_inputs, inputs);
    assert_eq!(roundtripped_outputs, outputs);
}

#[test]
fn bit_maps_to_native_boolean() {
    assert_eq!(jeff_to_hugr(JeffType::Int { bits: 1 }), HugrType::Bool);
    assert_eq!(jeff_to_hugr(JeffType::Int { bits: 7 }), HugrType::Int { log_width: 3 });
    assert_eq!(jeff_to_hugr(JeffType::Int { bits: 64 }), HugrType::Int { log_width: 6 });
}
