use vrb::attention_protocol::{
    decode_control, encode_control, expected_resource_lengths, AttentionControl, AttentionDataType,
    AttentionProtocolError, ATTENTION_HEADER_LEN, FLAG_CAUSAL, K_RESOURCE_INDEX, O_RESOURCE_INDEX,
    Q_RESOURCE_INDEX, V_RESOURCE_INDEX,
};
use vrb::attention_reference::{AttentionLimits, AttentionRun, ReferenceAttentionError};
use vrb::float::Float32;

fn f32_bits(value: f32) -> Float32 {
    Float32 { bits: value.to_bits() }
}

fn all(values: &[f32]) -> Vec<Float32> {
    values.iter().map(|value| f32_bits(*value)).collect()
}

fn control() -> AttentionControl {
    AttentionControl {
        flags: FLAG_CAUSAL,
        data_type: AttentionDataType::F16,
        batch: 2,
        query_heads: 8,
        kv_heads: 2,
        query_len: 16,
        kv_len: 32,
        head_dim: 64,
        scale: f32_bits(0.125),
        device_index: 0,
    }
}

#[test]
fn control_round_trip_is_exact() {
    let value = control();
    let encoded = encode_control(value).unwrap();
    assert_eq!(encoded.len(), ATTENTION_HEADER_LEN);
    assert_eq!(decode_control(&encoded).unwrap(), value);
}

#[test]
fn resource_lengths_account_for_grouped_query_heads() {
    let lengths = expected_resource_lengths(control()).unwrap();
    assert_eq!(lengths[Q_RESOURCE_INDEX], 2 * 8 * 16 * 64 * 2);
    assert_eq!(lengths[K_RESOURCE_INDEX], 2 * 2 * 32 * 64 * 2);
    assert_eq!(lengths[V_RESOURCE_INDEX], lengths[K_RESOURCE_INDEX]);
    assert_eq!(lengths[O_RESOURCE_INDEX], lengths[Q_RESOURCE_INDEX]);
}

#[test]
fn malformed_head_grouping_is_rejected() {
    let invalid = AttentionControl {
        query_heads: 7,
        kv_heads: 2,
        ..control()
    };
    assert!(matches!(
        invalid.validate(),
        Err(AttentionProtocolError::InvalidHeadGrouping { .. })
    ));
}

#[test]
fn reserved_bytes_fail_closed() {
    let mut encoded = encode_control(control()).unwrap();
    encoded[63] = 1;
    assert_eq!(
        decode_control(&encoded),
        Err(AttentionProtocolError::ReservedFieldNonZero)
    );
}

fn base_control() -> AttentionControl {
    AttentionControl {
        flags: 0,
        data_type: AttentionDataType::F32,
        batch: 1,
        query_heads: 1,
        kv_heads: 1,
        query_len: 1,
        kv_len: 2,
        head_dim: 1,
        scale: f32_bits(1.0),
        device_index: 0,
    }
}

fn execute_attention_f32(
    control: AttentionControl,
    q: &[f32],
    k: &[f32],
    v: &[f32],
    limits: AttentionLimits,
) -> Result<Vec<f32>, ReferenceAttentionError> {
    let (q, k, v) = (all(q), all(k), all(v));
    let mut run = AttentionRun::start(control, q.len(), k.len(), v.len(), limits)?;
    while !run.is_done() {
        let exponentials: Vec<Float32> = run
            .exponents(&q, &k)
            .iter()
            .map(|exponent| f32_bits(f32::from_bits(exponent.bits).exp()))
            .collect();
        run.accept(&exponentials, &v)?;
    }
    Ok(run
        .finish()
        .iter()
        .map(|value| f32::from_bits(value.bits))
        .collect())
}

#[test]
fn one_head_attention_matches_known_softmax() {
    let output = execute_attention_f32(
        base_control(),
        &[1.0],
        &[0.0, 1.0],
        &[2.0, 4.0],
        AttentionLimits::default(),
    )
    .unwrap();

    assert!((output[0] - 3.462_117).abs() < 1e-5);
}

#[test]
fn causal_mask_respects_decode_offset() {
    let control = AttentionControl {
        flags: FLAG_CAUSAL,
        query_len: 2,
        kv_len: 2,
        ..base_control()
    };
    let output = execute_attention_f32(
        control,
        &[1.0, 1.0],
        &[0.0, 1.0],
        &[2.0, 4.0],
        AttentionLimits::default(),
    )
    .unwrap();

    assert!((output[0] - 2.0).abs() < 1e-6);
    assert!((output[1] - 3.462_117).abs() < 1e-5);
}

#[test]
fn later_keys_do_not_reach_earlier_rows() {
    let control = AttentionControl {
        flags: FLAG_CAUSAL,
        query_len: 2,
        kv_len: 3,
        ..base_control()
    };
    let run = |last_key: f32, last_value: f32| {
        execute_attention_f32(
            control,
            &[1.0, -1.0],
            &[0.5, 1.0, last_key],
            &[2.0, 4.0, last_value],
            AttentionLimits::default(),
        )
        .unwrap()
    };
    let (one, other) = (run(0.0, 8.0), run(3.0, -5.0));
    assert_eq!(one[0].to_bits(), other[0].to_bits());
    assert_ne!(one[1], other[1]);
}

#[test]
fn grouped_query_attention_maps_heads_to_kv_groups() {
    let control = AttentionControl {
        query_heads: 4,
        kv_heads: 2,
        kv_len: 1,
        ..base_control()
    };
    let output = execute_attention_f32(
        control,
        &[1.0, 1.0, 1.0, 1.0],
        &[1.0, 10.0],
        &[3.0, 7.0],
        AttentionLimits::default(),
    )
    .unwrap();

    assert_eq!(output, vec![3.0, 3.0, 7.0, 7.0]);
}

#[test]
fn faults_of_controls_are_told_apart() {
    let base = base_control();
    let zero = AttentionControl { head_dim: 0, ..base };
    assert_eq!(zero.validate(), Err(AttentionProtocolError::ZeroDimension));
    let short = AttentionControl { flags: FLAG_CAUSAL, query_len: 3, ..base };
    assert!(matches!(
        short.validate(),
        Err(AttentionProtocolError::InvalidCausalLengths { .. })
    ));
    let scale = AttentionControl { scale: f32_bits(-1.0), ..base };
    assert!(matches!(scale.validate(), Err(AttentionProtocolError::InvalidScale(_))));
    let device = AttentionControl { device_index: -2, ..base };
    assert_eq!(device.validate(), Err(AttentionProtocolError::InvalidDeviceIndex(-2)));
    let flags = AttentionControl { flags: 0x80, ..base };
    assert_eq!(flags.validate(), Err(AttentionProtocolError::UnsupportedFlags(0x80)));
    let large = AttentionControl {
        batch: u32::MAX,
        query_heads: u32::MAX,
        kv_heads: u32::MAX,
        query_len: u32::MAX,
        kv_len: u32::MAX,
        head_dim: u32::MAX,
        ..base
    };
    assert_eq!(
        expected_resource_lengths(large),
        Err(AttentionProtocolError::SizeOverflow)
    );
}

#[test]
fn faults_of_runs_are_told_apart() {
    let half = AttentionControl { data_type: AttentionDataType::F16, ..base_control() };
    assert!(matches!(
        execute_attention_f32(half, &[1.0], &[0.0, 1.0], &[2.0, 4.0], AttentionLimits::default()),
        Err(ReferenceAttentionError::UnsupportedDataType(AttentionDataType::F16))
    ));
    assert!(matches!(
        execute_attention_f32(
            base_control(),
            &[1.0, 2.0],
            &[0.0, 1.0],
            &[2.0, 4.0],
            AttentionLimits::default()
        ),
        Err(ReferenceAttentionError::InputLength { .. })
    ));
    let mut run =
        AttentionRun::start(base_control(), 1, 2, 2, AttentionLimits::default()).unwrap();
    assert_eq!(
        run.accept(&all(&[0.0, 0.0]), &all(&[2.0, 4.0])),
        Err(ReferenceAttentionError::NumericalFailure)
    );
}

#[test]
fn attention_errors_have_texts() {
    type Error = AttentionProtocolError;
    for (error, text) in [
        (
            Error::InvalidLength { expected: 64, actual: 3 },
            "attention control length mismatch: expected 64, got 3",
        ),
        (Error::InvalidMagic, "attention control magic is invalid"),
        (Error::UnsupportedVersion(2), "unsupported attention protocol version 2"),
        (Error::InvalidHeaderLength(9), "invalid attention header length 9"),
        (Error::UnsupportedFlags(0xab), "unsupported attention flags 0x000000ab"),
        (Error::UnsupportedDataType(5), "unsupported attention datatype tag 5"),
        (Error::ZeroDimension, "attention dimensions must be non-zero"),
        (
            Error::InvalidHeadGrouping { query_heads: 7, kv_heads: 2 },
            "invalid attention head grouping: query_heads=7, kv_heads=2",
        ),
        (
            Error::InvalidCausalLengths { query_len: 5, kv_len: 4 },
            "causal attention requires kv_len >= query_len: query_len=5, kv_len=4",
        ),
        (
            Error::InvalidDeviceIndex(-3),
            "attention device index must be non-negative, got -3",
        ),
        (Error::InvalidResourceCount(3), "invalid attention resource count 3"),
        (
            Error::ReservedFieldNonZero,
            "reserved attention header field is non-zero",
        ),
        (Error::SizeOverflow, "attention tensor size arithmetic overflow"),
    ] {
        assert_eq!(error.number(), None);
        assert_eq!(error.message(""), text);
        assert_eq!(ReferenceAttentionError::Protocol(error).message(""), text);
    }
    let error = Error::InvalidScale(f32_bits(-0.5));
    assert_eq!(ReferenceAttentionError::Protocol(error).number(), Some(f32_bits(-0.5)));
    assert_eq!(
        ReferenceAttentionError::Protocol(error).message("-0.5"),
        "attention scale must be finite and positive, got -0.5"
    );
    for (error, text) in [
        (
            ReferenceAttentionError::UnsupportedDataType(AttentionDataType::Bf16),
            "CPU reference attention supports FP32 only, got Bf16",
        ),
        (
            ReferenceAttentionError::InputLength { name: "Q", expected: 2, actual: 1 },
            "Q input length mismatch: expected 2, got 1",
        ),
        (
            ReferenceAttentionError::ResourceLimit { what: "scores", requested: 9, limit: 8 },
            "scores exceeds configured limit: requested 9, limit 8",
        ),
        (
            ReferenceAttentionError::AddressSpaceOverflow,
            "attention tensor does not fit the host address space",
        ),
        (
            ReferenceAttentionError::NumericalFailure,
            "attention softmax produced a non-finite or zero denominator",
        ),
    ] {
        assert_eq!(error.message(""), text);
    }
}
